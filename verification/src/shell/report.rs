//! What the display stack is told about modes, and what it tells back.
use vstd::prelude::*;

use crate::adapter::AdapterInfo;
use crate::modepush::committed::MAX_COMMITTED_PATHS;
use crate::modepush::{
    offered_below, preferred_index, preferred_monitor_mode_idx, CommittedMode,
};
use crate::modes::Mode;
use crate::proto::wire::i32_bits;
use crate::proto::BitDepth;

verus! {

/// A video signal: progressive, no blanking beyond the active size.
#[derive(Clone, Copy, Debug, PartialEq, Eq, Structural)]
pub struct SignalInfo {
    /// Pixels per second.
    pub pixel_rate: u64,
    /// Horizontal frequency, in hertz.
    pub hsync_numerator: u32,
    pub hsync_denominator: u32,
    /// Vertical frequency.
    pub vsync_numerator: u32,
    pub vsync_denominator: u32,
    pub width: u32,
    pub height: u32,
    /// 0 in a monitor mode, 1 in a target mode.
    pub vsync_divider: u32,
}

/// The signal of a mode.
pub open spec fn signal_of(mode: Mode, divider: u32) -> SignalInfo {
    SignalInfo {
        pixel_rate: (mode.width * mode.height * mode.refresh_millihz / 1000) as u64,
        hsync_numerator: (if mode.refresh_millihz * mode.height > u32::MAX {
            u32::MAX as int / 1000
        } else {
            mode.refresh_millihz * mode.height / 1000
        }) as u32,
        hsync_denominator: 1,
        vsync_numerator: mode.refresh_millihz,
        vsync_denominator: 1000,
        width: mode.width,
        height: mode.height,
        vsync_divider: divider,
    }
}

/// The signal of a mode, as reported in a monitor or a target mode.
pub fn signal_info(mode: &Mode, divider: u32) -> (r: SignalInfo)
    requires
        mode.width * mode.height * mode.refresh_millihz <= u64::MAX,
    ensures
        r == signal_of(*mode, divider),
{
    let (w, h, hz): (u64, u64, u64) = (
        mode.width as u64,
        mode.height as u64,
        mode.refresh_millihz as u64,
    );
    assert(0 <= w * h <= u64::MAX) by (nonlinear_arith)
        requires
            0 <= w <= u32::MAX,
            0 <= h <= u32::MAX,
    ;
    let lines: u32 = match mode.refresh_millihz.checked_mul(mode.height) {
        Some(v) => v,
        None => u32::MAX,
    };
    SignalInfo {
        pixel_rate: w * h * hz / 1000,
        hsync_numerator: lines / 1000,
        hsync_denominator: 1,
        vsync_numerator: mode.refresh_millihz,
        vsync_denominator: 1000,
        width: mode.width,
        height: mode.height,
        vsync_divider: divider,
    }
}

/// The frequency reported for a mode is recognised when it comes back in a commit,
/// reduced or not.
pub proof fn law_reported_mode_is_recognised(mode: Mode, divider: u32, factor: u32)
    requires
        mode.width > 0,
        mode.height > 0,
        mode.refresh_millihz > 0,
        factor > 0,
        mode.refresh_millihz % factor == 0,
        1000u32 % factor == 0,
    ensures
        ({
            let s = signal_of(mode, divider);
            let back = CommittedMode::of_signal(
                s.width,
                s.height,
                (s.vsync_numerator as int / factor as int) as u64,
                (s.vsync_denominator as int / factor as int) as u64,
            );
            back matches Some(c) && c.matches_mode(mode)
        }),
{
    let (n, f) = (mode.refresh_millihz as int, factor as int);
    let (a, b) = (n / f, 1000int / f);
    vstd::arithmetic::div_mod::lemma_fundamental_div_mod(n, f);
    vstd::arithmetic::div_mod::lemma_fundamental_div_mod(1000, f);
    assert(n == f * a);
    assert(1000 == f * b);
    assert(b > 0) by (nonlinear_arith)
        requires
            1000 == f * b,
            f > 0,
    ;
    assert(0 < a <= n) by (nonlinear_arith)
        requires
            n == f * a,
            f > 0,
            n > 0,
    ;
    assert(a * 1000 == n * b) by (nonlinear_arith)
        requires
            n == f * a,
            1000 == f * b,
    ;
    vstd::arithmetic::div_mod::lemma_div_multiples_vanish(n, b);
    assert(n * b == b * n) by (nonlinear_arith);
    assert(a * 1000 / b == n);
}

/// Bits per component on the wire.
pub open spec fn wire_bits(depth: BitDepth) -> u32 {
    match depth {
        BitDepth::Sdr8 => 8,
        BitDepth::Sdr10 => 10,
        BitDepth::Hdr10 => 10,
        BitDepth::Hdr12 => 12,
    }
}

pub fn wire_bpc_for(mode: &Mode) -> (r: u32)
    ensures
        r == wire_bits(mode.bit_depth),
{
    match mode.bit_depth {
        BitDepth::Sdr8 => 8,
        BitDepth::Sdr10 | BitDepth::Hdr10 => 10,
        BitDepth::Hdr12 => 12,
    }
}

/// The answer to a mode query: how many modes there are or were written, how many to
/// write, and which of them is preferred.
#[derive(Clone, Copy, Debug, PartialEq, Eq, Structural)]
pub struct ModeReport {
    pub count: u32,
    /// `None` when the caller only asked how many there are.
    pub fill: Option<usize>,
    pub preferred: u32,
}

/// The answer for `monitor` modes of which `targets` are published, into a buffer for
/// `buffer` modes, if the caller brought one.
pub open spec fn description_report(monitor: Seq<Mode>, targets: Seq<Mode>, buffer: Option<u32>) -> ModeReport {
    match buffer {
        None => ModeReport {
            count: monitor.len() as u32,
            fill: None,
            preferred: preferred_index(monitor, targets, usize::MAX as nat),
        },
        Some(n) => {
            let fill = if monitor.len() <= n {
                monitor.len()
            } else {
                n as nat
            };
            ModeReport {
                count: fill as u32,
                fill: Some(fill as usize),
                preferred: preferred_index(monitor, targets, fill),
            }
        },
    }
}

/// Answer a request to parse a monitor's description. `buffer` is the number of modes
/// the caller has room for, `None` if it brought no buffer.
pub fn describe_modes(monitor: &[Mode], targets: &[Mode], buffer: Option<u32>) -> (r: ModeReport)
    requires
        monitor@.len() <= u32::MAX,
    ensures
        r == description_report(monitor@, targets@, buffer),
{
    match buffer {
        None => ModeReport {
            count: monitor.len() as u32,
            fill: None,
            preferred: preferred_monitor_mode_idx(monitor, targets, usize::MAX),
        },
        Some(n) => {
            let fill: usize = if monitor.len() <= n as usize {
                monitor.len()
            } else {
                n as usize
            };
            ModeReport {
                count: fill as u32,
                fill: Some(fill),
                preferred: preferred_monitor_mode_idx(monitor, targets, fill),
            }
        },
    }
}

/// The buffer a caller brought: none if it has no room or no address.
pub fn mode_buffer(count: u32, present: bool) -> (r: Option<u32>)
    ensures
        r == (if count == 0 || !present {
            None
        } else {
            Some(count)
        }),
{
    if count == 0 || !present {
        None
    } else {
        Some(count)
    }
}

/// How many target modes to write into a buffer for `buffer` of them: the count to
/// report and the number to write.
pub fn target_fill(targets: usize, buffer: Option<u32>) -> (r: (u32, Option<usize>))
    requires
        targets <= u32::MAX,
    ensures
        r.0 == (match r.1 {
            Some(n) => n as int,
            None => targets as int,
        }),
        r.1 == (match buffer {
            None => None,
            Some(n) => Some(
                if targets <= n {
                    targets
                } else {
                    n as usize
                },
            ),
        }),
{
    match buffer {
        None => (targets as u32, None),
        Some(n) => {
            let fill: usize = if targets <= n as usize {
                targets
            } else {
                n as usize
            };
            (fill as u32, Some(fill))
        },
    }
}

/// The preferred mode of a description is among the modes written, or is the first.
pub proof fn law_preferred_mode_is_written(monitor: Seq<Mode>, targets: Seq<Mode>, n: u32)
    requires
        monitor.len() <= u32::MAX,
    ensures
        ({
            let r = description_report(monitor, targets, Some(n));
            &&& r.fill == Some(r.count as usize)
            &&& r.count <= n
            &&& r.preferred < r.count || r.preferred == 0
            &&& offered_below(monitor, targets, r.count as int) ==> targets.contains(
                monitor[r.preferred as int],
            )
        }),
{
    let r = description_report(monitor, targets, Some(n));
    let fill = r.count as nat;
    if offered_below(monitor, targets, fill as int) {
        crate::modepush::law_preferred_mode_is_offered(monitor, targets, fill);
    } else {
        crate::modepush::lemma_preferred_none(monitor, targets, fill);
    }
}

/// One path of a commit.
#[derive(Clone, Copy, Debug, PartialEq, Eq, Structural)]
pub struct CommitPath {
    pub active: bool,
    /// The monitor; 0 is none.
    pub monitor: u64,
    pub width: u32,
    pub height: u32,
    pub vsync_numerator: u32,
    pub vsync_denominator: u32,
}

impl CommitPath {
    /// The mode of a path that counts: active, on a monitor, with a signal that makes
    /// sense.
    pub open spec fn counted(self) -> Option<(u64, CommittedMode)> {
        match CommittedMode::of_signal(
            self.width,
            self.height,
            self.vsync_numerator as u64,
            self.vsync_denominator as u64,
        ) {
            Some(mode) => if self.active && self.monitor != 0 {
                Some((self.monitor, mode))
            } else {
                None
            },
            None => None,
        }
    }

    /// The monitor and mode to record of this path, if it counts.
    pub fn record(&self) -> (r: Option<(u64, CommittedMode)>)
        ensures
            r == self.counted(),
    {
        let mode = CommittedMode::from_signal(
            self.width,
            self.height,
            self.vsync_numerator as u64,
            self.vsync_denominator as u64,
        );
        match mode {
            Some(mode) => if self.active && self.monitor != 0 {
                Some((self.monitor, mode))
            } else {
                None
            },
            None => None,
        }
    }
}

/// The paths of a commit that count, in order.
pub open spec fn counted_paths(paths: Seq<CommitPath>) -> Seq<(u64, CommittedMode)>
    decreases paths.len(),
{
    if paths.len() == 0 {
        Seq::empty()
    } else {
        let before = counted_paths(paths.drop_last());
        match paths.last().counted() {
            Some(p) => before.push(p),
            None => before,
        }
    }
}

/// Sort out the paths of a commit: those to record, as many as fit, and how many
/// count in all.
pub fn commit_paths(paths: &[CommitPath]) -> (r: (Vec<(u64, CommittedMode)>, u32))
    requires
        paths@.len() <= u32::MAX,
    ensures
        r.1 == counted_paths(paths@).len(),
        r.0@ == counted_paths(paths@).take(
            if counted_paths(paths@).len() <= MAX_COMMITTED_PATHS {
                counted_paths(paths@).len() as int
            } else {
                MAX_COMMITTED_PATHS as int
            },
        ),
{
    let mut out: Vec<(u64, CommittedMode)> = Vec::new();
    let mut total: u32 = 0;
    let mut i: usize = 0;
    assert(paths@.take(0) =~= Seq::<CommitPath>::empty());
    while i < paths.len()
        invariant
            i <= paths@.len() <= u32::MAX,
            total <= i,
            ({
                let all = counted_paths(paths@.take(i as int));
                &&& total == all.len()
                &&& out@ == all.take(
                    if all.len() <= MAX_COMMITTED_PATHS {
                        all.len() as int
                    } else {
                        MAX_COMMITTED_PATHS as int
                    },
                )
            }),
        decreases paths@.len() - i,
    {
        let p = paths[i];
        let ghost before = counted_paths(paths@.take(i as int));
        let ghost was = out@;
        proof {
            assert(paths@.take(i + 1).drop_last() =~= paths@.take(i as int));
            assert(paths@.take(i + 1).last() == p);
        }
        if let Some(counted) = p.record() {
            total += 1;
            if out.len() < MAX_COMMITTED_PATHS {
                out.push(counted);
            }
        }
        i += 1;
        proof {
            let all = counted_paths(paths@.take(i as int));
            let n = if all.len() <= MAX_COMMITTED_PATHS {
                all.len() as int
            } else {
                MAX_COMMITTED_PATHS as int
            };
            assert(out@ =~= all.take(n));
        }
    }
    assert(paths@.take(i as int) =~= paths@);
    (out, total)
}

/// The GUID of a monitor's container: the high half of its identity in the first part,
/// the low half in the next two, and a fixed text in the last.
pub open spec fn container_of(display_id: u64) -> (u32, u16, u16, Seq<u8>) {
    (
        (display_id / 0x1_0000_0000) as u32,
        (display_id / 0x1_0000 % 0x1_0000) as u16,
        (display_id % 0x1_0000) as u16,
        seq![0x4Cu8, 0x75, 0x6D, 0x69, 0x6E, 0x61, 0x6C, 0x56],
    )
}

/// A GUID for a monitor's container, spelled from its identity.
pub fn container_guid(display_id: u64) -> (r: (u32, u16, u16, [u8; 8]))
    ensures
        (r.0, r.1, r.2, r.3@) == container_of(display_id),
{
    let tail: [u8; 8] = [0x4C, 0x75, 0x6D, 0x69, 0x6E, 0x61, 0x6C, 0x56];
    assert(tail@ =~= seq![0x4Cu8, 0x75, 0x6D, 0x69, 0x6E, 0x61, 0x6C, 0x56]);
    (
        (display_id / 0x1_0000_0000) as u32,
        (display_id / 0x1_0000 % 0x1_0000) as u16,
        (display_id % 0x1_0000) as u16,
        tail,
    )
}

/// Two identities never share a container GUID.
pub proof fn law_container_guid_spells_identity(a: u64, b: u64)
    requires
        container_of(a) == container_of(b),
    ensures
        a == b,
{
    let (x, y) = (container_of(a), container_of(b));
    assert(x.0 == y.0 && x.1 == y.1 && x.2 == y.2);
}

/// An adapter's LUID in one word.
pub fn pack_luid(high: i32, low: u32) -> (r: u64)
    ensures
        r == i32_bits(high) * 0x1_0000_0000 + low,
{
    let hi: u64 = if high >= 0 {
        high as u64
    } else {
        (high as i64 + 0x1_0000_0000) as u64
    };
    hi * 0x1_0000_0000 + low as u64
}

/// The parts of a packed LUID.
pub fn unpack_luid(luid: u64) -> (r: (i32, u32))
    ensures
        i32_bits(r.0) * 0x1_0000_0000 + r.1 == luid,
{
    let bits: u32 = (luid / 0x1_0000_0000) as u32;
    let high: i32 = if bits < 0x8000_0000 {
        bits as i32
    } else {
        (bits as i64 - 0x1_0000_0000) as i32
    };
    (high, (luid % 0x1_0000_0000) as u32)
}

/// The flag of an adapter that renders in software.
pub const ADAPTER_FLAG_SOFTWARE: u32 = 2;

/// How many units of a NUL-padded text come before the first NUL.
pub fn text_len(units: &[u16]) -> (r: usize)
    ensures
        r <= units@.len(),
        forall|i: int| 0 <= i < r ==> #[trigger] units@[i] != 0,
        r < units@.len() ==> units@[r as int] == 0,
{
    let mut n: usize = 0;
    while n < units.len() && units[n] != 0
        invariant
            n <= units@.len(),
            forall|i: int| 0 <= i < n ==> #[trigger] units@[i] != 0,
        decreases units@.len() - n,
    {
        n += 1;
    }
    n
}

/// An adapter as it is enumerated.
pub fn described_adapter(high: i32, low: u32, vram_bytes: u64, flags: u32, name: String) -> (r:
    AdapterInfo)
    ensures
        r.luid == i32_bits(high) * 0x1_0000_0000 + low,
        r.vram_bytes == vram_bytes,
        r.name == name,
        r.software == (flags & ADAPTER_FLAG_SOFTWARE != 0),
{
    AdapterInfo {
        luid: pack_luid(high, low),
        vram_bytes,
        name,
        software: flags & ADAPTER_FLAG_SOFTWARE != 0,
    }
}

/// A LUID comes back out of its word, and two LUIDs never share one.
pub proof fn law_luid_fits_its_word(high: i32, low: u32, other_high: i32, other_low: u32)
    requires
        i32_bits(high) * 0x1_0000_0000 + low == i32_bits(other_high) * 0x1_0000_0000 + other_low,
    ensures
        high == other_high,
        low == other_low,
{
}

/// The signal of a mode, by what its numbers mean: the vertical frequency is the rate over
/// a thousand, the active size is that of the mode, the pixel rate is the number of pixels
/// shown per second and the horizontal frequency that of lines, both rounded down.
pub proof fn law_signal_values(mode: Mode, divider: u32)
    requires
        mode.width * mode.height * mode.refresh_millihz <= u64::MAX,
    ensures
        ({
            let s = signal_of(mode, divider);
            let pixels = mode.width * mode.height * mode.refresh_millihz;
            let lines = mode.refresh_millihz * mode.height;
            &&& s.vsync_numerator == mode.refresh_millihz
            &&& s.vsync_denominator == 1000
            &&& s.width == mode.width
            &&& s.height == mode.height
            &&& s.vsync_divider == divider
            &&& s.hsync_denominator == 1
            &&& 1000 * s.pixel_rate <= pixels < 1000 * s.pixel_rate + 1000
            &&& lines <= 0xFFFF_FFFF ==> 1000 * s.hsync_numerator <= lines < 1000 * s.hsync_numerator
                + 1000
            &&& lines > 0xFFFF_FFFF ==> s.hsync_numerator == 4_294_967
        }),
{
    let pixels = mode.width * mode.height * mode.refresh_millihz;
    let lines = mode.refresh_millihz * mode.height;
    assert(pixels >= 0) by (nonlinear_arith)
        requires
            pixels == mode.width * mode.height * mode.refresh_millihz,
            mode.width >= 0,
            mode.height >= 0,
            mode.refresh_millihz >= 0,
    ;
    assert(lines >= 0) by (nonlinear_arith)
        requires
            lines == mode.refresh_millihz * mode.height,
            mode.height >= 0,
            mode.refresh_millihz >= 0,
    ;
}

/// The bits per component that a depth stands for.
pub proof fn law_wire_bits_values(depth: BitDepth)
    ensures
        wire_bits(depth) == (if depth.raw() == 8 {
            8int
        } else if depth.raw() == 112 {
            12
        } else {
            10
        }),
{
}

/// A query without a buffer is told how many modes there are; one with a buffer gets as
/// many as fit and is told that number. The preferred one is the first reported mode that
/// is published, and the first of all where none is.
pub proof fn law_description_report_values(monitor: Seq<Mode>, targets: Seq<Mode>, n: u32, i: int)
    requires
        monitor.len() <= u32::MAX,
    ensures
        ({
            let asked = description_report(monitor, targets, None);
            let given = description_report(monitor, targets, Some(n));
            let k = if monitor.len() < n {
                monitor.len() as int
            } else {
                n as int
            };
            &&& asked.count == monitor.len()
            &&& asked.fill is None
            &&& given.count == k
            &&& given.fill == Some(k as usize)
            &&& 0 <= i < k && targets.contains(monitor[i]) ==> given.preferred <= i
                && given.preferred < k && targets.contains(monitor[given.preferred as int])
            &&& (forall|j: int| 0 <= j < k ==> !targets.contains(#[trigger] monitor[j]))
                ==> given.preferred == 0
            &&& 0 <= i < monitor.len() && monitor.len() <= usize::MAX && targets.contains(monitor[i])
                ==> asked.preferred <= i && targets.contains(monitor[asked.preferred as int])
        }),
{
    let k = if monitor.len() < n {
        monitor.len()
    } else {
        n as nat
    };
    crate::modepush::lemma_preferred_first(monitor, targets, k, i);
    crate::modepush::lemma_preferred_first(monitor, targets, usize::MAX as nat, i);
}

/// A path counts when it is active, on a monitor, and has a signal; what is recorded is
/// its monitor, its size and its rate in millihertz. Paths are recorded in their order.
pub proof fn law_counted_path_values(paths: Seq<CommitPath>, p: CommitPath)
    ensures
        ({
            let rate = p.vsync_numerator * 1000;
            let signal = p.width > 0 && p.height > 0 && p.vsync_denominator > 0 && rate
                >= p.vsync_denominator && rate < 0x1_0000_0000 * p.vsync_denominator;
            let good = p.active && p.monitor != 0 && signal;
            &&& p.counted() is Some <==> good
            &&& p.counted() matches Some((monitor, mode)) ==> {
                &&& monitor == p.monitor
                &&& mode.width == p.width
                &&& mode.height == p.height
                &&& mode.refresh_millihz * p.vsync_denominator <= rate < (mode.refresh_millihz + 1)
                    * p.vsync_denominator
            }
            &&& counted_paths(paths.push(p)) == (if good {
                counted_paths(paths).push(p.counted()->0)
            } else {
                counted_paths(paths)
            })
            &&& counted_paths(Seq::empty()).len() == 0
        }),
{
    assert(paths.push(p).drop_last() =~= paths);
    crate::modepush::committed::law_committed_mode_of_a_signal(
        p.width,
        p.height,
        p.vsync_numerator as u64,
        p.vsync_denominator as u64,
    );
}

/// A container GUID spells the identity, most significant part first, and then
/// "LuminalV".
pub proof fn law_container_guid_values(display_id: u64)
    ensures
        ({
            let g = container_of(display_id);
            &&& g.0 * 0x1_0000_0000 + g.1 * 0x1_0000 + g.2 == display_id
            &&& g.3 == seq![0x4Cu8, 0x75, 0x6D, 0x69, 0x6E, 0x61, 0x6C, 0x56]
        }),
{
}

/// The flag by which an adapter is told to be software.
pub proof fn law_adapter_flag_value()
    ensures
        ADAPTER_FLAG_SOFTWARE == 2,
{
}

} // verus!
