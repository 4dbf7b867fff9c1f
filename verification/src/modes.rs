//! Mode validation. A `Mode` in hand is proof that the request was acceptable.
use vstd::prelude::*;

use crate::error::CoreError;
use crate::proto::caps;
use crate::proto::{BitDepth, ModeSpec, MAX_MODES_PER_MONITOR};

verus! {

pub const MIN_WIDTH: u32 = 320;

pub const MAX_WIDTH: u32 = 7680;

pub const MIN_HEIGHT: u32 = 200;

pub const MAX_HEIGHT: u32 = 4320;

pub const MIN_REFRESH_MILLIHZ: u32 = 1;

pub const MAX_REFRESH_MILLIHZ: u32 = 0xFFFF_FFFF;

/// A validated monitor mode.
#[derive(Clone, Copy, Debug, PartialEq, Eq, Structural)]
pub struct Mode {
    pub width: u32,
    pub height: u32,
    pub refresh_millihz: u32,
    pub bit_depth: BitDepth,
    pub hdr: bool,
}

/// Inside the supported envelope. Both dimensions are even, as encoders that
/// subsample chroma need.
pub open spec fn in_envelope(width: u32, height: u32, refresh_millihz: u32) -> bool {
    &&& MIN_WIDTH <= width <= MAX_WIDTH
    &&& MIN_HEIGHT <= height <= MAX_HEIGHT
    &&& MIN_REFRESH_MILLIHZ <= refresh_millihz <= MAX_REFRESH_MILLIHZ
    &&& width % 2 == 0
    &&& height % 2 == 0
}

/// Why a depth is not available at this dynamic range, if it is not.
pub open spec fn depth_refusal(depth: BitDepth, hdr: bool, drv_caps: u32) -> Option<CoreError> {
    match depth {
        BitDepth::Sdr8 => if hdr {
            Some(CoreError::BadBitDepth)
        } else {
            None
        },
        BitDepth::Sdr10 => if hdr || drv_caps & caps::SDR10_BIT == 0 {
            Some(CoreError::BadBitDepth)
        } else {
            None
        },
        BitDepth::Hdr10 => if !hdr {
            Some(CoreError::BadBitDepth)
        } else if drv_caps & caps::HDR10 == 0 {
            Some(CoreError::HdrUnsupported)
        } else {
            None
        },
        BitDepth::Hdr12 => if !hdr {
            Some(CoreError::BadBitDepth)
        } else if drv_caps & caps::HDR10 == 0 || drv_caps & caps::HDR12_BIT == 0 {
            Some(CoreError::HdrUnsupported)
        } else {
            None
        },
    }
}

/// The mode that raw wire values describe, or why they are refused.
pub open spec fn mode_of(
    width: u32,
    height: u32,
    refresh_millihz: u32,
    bit_depth_raw: u32,
    hdr_raw: u32,
    drv_caps: u32,
) -> Result<Mode, CoreError> {
    if !in_envelope(width, height, refresh_millihz) {
        Err(CoreError::BadMode)
    } else {
        match BitDepth::of_raw(bit_depth_raw) {
            None => Err(CoreError::BadBitDepth),
            Some(bit_depth) => if hdr_raw > 1 {
                Err(CoreError::BadMode)
            } else {
                match depth_refusal(bit_depth, hdr_raw == 1, drv_caps) {
                    Some(e) => Err(e),
                    None => Ok(Mode { width, height, refresh_millihz, bit_depth, hdr: hdr_raw == 1 }),
                }
            },
        }
    }
}

/// The modes of a list, or the error of the first entry that is refused or occurs
/// twice.
pub open spec fn modes_of(
    specs: Seq<ModeSpec>,
    bit_depth_raw: u32,
    hdr_raw: u32,
    drv_caps: u32,
) -> Result<Seq<Mode>, CoreError>
    decreases specs.len(),
{
    if specs.len() == 0 {
        Ok(Seq::empty())
    } else {
        match modes_of(specs.drop_last(), bit_depth_raw, hdr_raw, drv_caps) {
            Err(e) => Err(e),
            Ok(before) => {
                let s = specs.last();
                match mode_of(s.width, s.height, s.refresh_millihz, bit_depth_raw, hdr_raw, drv_caps) {
                    Err(e) => Err(e),
                    Ok(m) => if before.contains(m) {
                        Err(CoreError::BadMode)
                    } else {
                        Ok(before.push(m))
                    },
                }
            },
        }
    }
}

/// The first `mode_count` entries as a mode list: at least one, at most
/// `MAX_MODES_PER_MONITOR`.
pub open spec fn mode_list_of(
    specs: Seq<ModeSpec>,
    mode_count: u32,
    bit_depth_raw: u32,
    hdr_raw: u32,
    drv_caps: u32,
) -> Result<Seq<Mode>, CoreError> {
    if mode_count == 0 || mode_count > MAX_MODES_PER_MONITOR || mode_count > specs.len() {
        Err(CoreError::BadMode)
    } else {
        modes_of(specs.take(mode_count as int), bit_depth_raw, hdr_raw, drv_caps)
    }
}

/// The requested modes that the monitor describes, in request order, each once.
pub open spec fn selected_targets(supported: Seq<Mode>, requested: Seq<Mode>) -> Seq<Mode>
    decreases requested.len(),
{
    if requested.len() == 0 {
        Seq::empty()
    } else {
        let before = selected_targets(supported, requested.drop_last());
        let m = requested.last();
        if supported.contains(m) && !before.contains(m) {
            before.push(m)
        } else {
            before
        }
    }
}

/// How many requested entries the monitor describes.
pub open spec fn accepted_count(supported: Seq<Mode>, requested: Seq<Mode>) -> nat {
    requested.filter(|m: Mode| supported.contains(m)).len()
}

/// The first requested entry that the monitor does not describe.
pub open spec fn first_rejected(supported: Seq<Mode>, requested: Seq<Mode>) -> Option<usize>
    decreases requested.len(),
{
    if requested.len() == 0 {
        None
    } else {
        match first_rejected(supported, requested.drop_last()) {
            Some(i) => Some(i),
            None => if supported.contains(requested.last()) {
                None
            } else {
                Some((requested.len() - 1) as usize)
            },
        }
    }
}

/// Whether `modes` holds `mode`.
pub fn holds_mode(modes: &[Mode], mode: &Mode) -> (r: bool)
    ensures
        r == modes@.contains(*mode),
{
    let mut i: usize = 0;
    while i < modes.len()
        invariant
            i <= modes@.len(),
            forall|j: int| 0 <= j < i ==> modes@[j] != *mode,
        decreases modes@.len() - i,
    {
        if modes[i] == *mode {
            return true;
        }
        i += 1;
    }
    false
}

/// Whether two lists hold the same modes in the same order.
pub fn same_modes(a: &[Mode], b: &[Mode]) -> (r: bool)
    ensures
        r == (a@ == b@),
{
    if a.len() != b.len() {
        return false;
    }
    let mut i: usize = 0;
    while i < a.len()
        invariant
            i <= a@.len(),
            a@.len() == b@.len(),
            forall|j: int| 0 <= j < i ==> a@[j] == b@[j],
        decreases a@.len() - i,
    {
        if a[i] != b[i] {
            return false;
        }
        i += 1;
    }
    assert(a@ =~= b@);
    true
}

/// A copy of a mode list.
pub fn copy_modes(modes: &[Mode]) -> (r: Vec<Mode>)
    ensures
        r@ == modes@,
{
    let mut out: Vec<Mode> = Vec::new();
    let mut i: usize = 0;
    while i < modes.len()
        invariant
            i <= modes@.len(),
            out@ == modes@.take(i as int),
        decreases modes@.len() - i,
    {
        out.push(modes[i]);
        i += 1;
        assert(out@ =~= modes@.take(i as int));
    }
    assert(out@ =~= modes@);
    out
}

impl Mode {
    /// Validate raw wire values against the envelope and the driver's
    /// capabilities.
    pub fn validate(
        width: u32,
        height: u32,
        refresh_millihz: u32,
        bit_depth_raw: u32,
        hdr_raw: u32,
        drv_caps: u32,
    ) -> (r: Result<Self, CoreError>)
        ensures
            r == mode_of(width, height, refresh_millihz, bit_depth_raw, hdr_raw, drv_caps),
    {
        if width < MIN_WIDTH || width > MAX_WIDTH || height < MIN_HEIGHT || height > MAX_HEIGHT
            || refresh_millihz < MIN_REFRESH_MILLIHZ || refresh_millihz > MAX_REFRESH_MILLIHZ
            || width % 2 != 0 || height % 2 != 0 {
            return Err(CoreError::BadMode);
        }
        let bit_depth = match BitDepth::from_raw(bit_depth_raw) {
            Some(d) => d,
            None => return Err(CoreError::BadBitDepth),
        };
        let hdr: bool = match hdr_raw {
            0 => false,
            1 => true,
            _ => return Err(CoreError::BadMode),
        };
        match (hdr, bit_depth) {
            (false, BitDepth::Sdr8) => {},
            (false, BitDepth::Sdr10) => {
                if drv_caps & caps::SDR10_BIT == 0 {
                    return Err(CoreError::BadBitDepth);
                }
            },
            (true, BitDepth::Hdr10) => {
                if drv_caps & caps::HDR10 == 0 {
                    return Err(CoreError::HdrUnsupported);
                }
            },
            (true, BitDepth::Hdr12) => {
                if drv_caps & caps::HDR10 == 0 || drv_caps & caps::HDR12_BIT == 0 {
                    return Err(CoreError::HdrUnsupported);
                }
            },
            _ => return Err(CoreError::BadBitDepth),
        }
        Ok(Mode { width, height, refresh_millihz, bit_depth, hdr })
    }

    /// Twice the refresh rate, for frame generation, where that still fits the
    /// envelope.
    pub fn doubled_refresh(refresh_millihz: u32) -> (r: Option<u32>)
        ensures
            r == (if 0 < refresh_millihz && 2 * refresh_millihz <= MAX_REFRESH_MILLIHZ {
                Some((2 * refresh_millihz) as u32)
            } else {
                None
            }),
    {
        match refresh_millihz.checked_mul(2) {
            Some(doubled) => if doubled >= MIN_REFRESH_MILLIHZ && doubled <= MAX_REFRESH_MILLIHZ {
                Some(doubled)
            } else {
                None
            },
            None => None,
        }
    }

    /// Validate the mode list of a create request. Bit depth, dynamic range and
    /// capabilities apply to the whole monitor; the first mode is preferred.
    pub fn validate_list(
        specs: &[ModeSpec],
        mode_count: u32,
        bit_depth_raw: u32,
        hdr_raw: u32,
        drv_caps: u32,
    ) -> (r: Result<Vec<Mode>, CoreError>)
        ensures
            r is Ok <==> mode_list_of(specs@, mode_count, bit_depth_raw, hdr_raw, drv_caps) is Ok,
            r matches Ok(v) ==> mode_list_of(specs@, mode_count, bit_depth_raw, hdr_raw, drv_caps)
                == Ok::<Seq<Mode>, CoreError>(v@),
            r matches Err(e) ==> mode_list_of(specs@, mode_count, bit_depth_raw, hdr_raw, drv_caps)
                == Err::<Seq<Mode>, CoreError>(e),
    {
        let count: usize = mode_count as usize;
        if count == 0 || count > MAX_MODES_PER_MONITOR as usize || count > specs.len() {
            return Err(CoreError::BadMode);
        }
        let mut out: Vec<Mode> = Vec::new();
        let mut i: usize = 0;
        let ghost whole = modes_of(specs@.take(count as int), bit_depth_raw, hdr_raw, drv_caps);
        assert(specs@.take(0) =~= Seq::<ModeSpec>::empty());
        while i < count
            invariant
                i <= count <= specs@.len(),
                modes_of(specs@.take(i as int), bit_depth_raw, hdr_raw, drv_caps) == Ok::<
                    Seq<Mode>,
                    CoreError,
                >(out@),
                whole == modes_of(specs@.take(count as int), bit_depth_raw, hdr_raw, drv_caps),
                mode_list_of(specs@, mode_count, bit_depth_raw, hdr_raw, drv_caps) == whole,
            decreases count - i,
        {
            let spec_ = specs[i];
            proof {
                assert(specs@.take(i + 1).drop_last() =~= specs@.take(i as int));
                lemma_modes_of_prefix(specs@.take(count as int), i + 1, bit_depth_raw, hdr_raw, drv_caps);
                assert(specs@.take(count as int).take(i + 1) =~= specs@.take(i + 1));
            }
            let mode = match Mode::validate(
                spec_.width,
                spec_.height,
                spec_.refresh_millihz,
                bit_depth_raw,
                hdr_raw,
                drv_caps,
            ) {
                Ok(m) => m,
                Err(e) => return Err(e),
            };
            if holds_mode(out.as_slice(), &mode) {
                return Err(CoreError::BadMode);
            }
            out.push(mode);
            i += 1;
        }
        Ok(out)
    }

    /// Resolve a mode update into the target list to publish: every requested mode
    /// that the monitor describes, in request order, each once. An empty selection
    /// must be refused, never published.
    pub fn select_targets(supported: &[Mode], requested: &[Mode]) -> (r: TargetSelection)
        ensures
            r.targets@ == selected_targets(supported@, requested@),
            r.accepted == accepted_count(supported@, requested@),
            r.accepted + r.rejected == requested@.len(),
            r.first_rejected == first_rejected(supported@, requested@),
    {
        let mut targets: Vec<Mode> = Vec::new();
        let mut accepted: usize = 0;
        let mut rejected: usize = 0;
        let mut first: Option<usize> = None;
        let mut i: usize = 0;
        let ghost keep = |m: Mode| supported@.contains(m);
        assert(requested@.take(0) =~= Seq::<Mode>::empty());
        proof {
            reveal(Seq::filter);
        }
        while i < requested.len()
            invariant
                i <= requested@.len(),
                keep == (|m: Mode| supported@.contains(m)),
                targets@ == selected_targets(supported@, requested@.take(i as int)),
                accepted == requested@.take(i as int).filter(keep).len(),
                accepted + rejected == i,
                first == first_rejected(supported@, requested@.take(i as int)),
            decreases requested@.len() - i,
        {
            let mode = requested[i];
            proof {
                assert(requested@.take(i + 1).drop_last() =~= requested@.take(i as int));
                assert(requested@.take(i + 1).last() == mode);
                reveal(Seq::filter);
            }
            if holds_mode(supported, &mode) {
                if !holds_mode(targets.as_slice(), &mode) {
                    targets.push(mode);
                }
                accepted += 1;
            } else {
                rejected += 1;
                if first.is_none() {
                    first = Some(i);
                }
            }
            i += 1;
        }
        assert(requested@.take(i as int) =~= requested@);
        TargetSelection { targets, accepted, rejected, first_rejected: first }
    }
}

/// What becomes of a list shows in each of its prefixes.
proof fn lemma_modes_of_prefix(
    specs: Seq<ModeSpec>,
    n: int,
    bit_depth_raw: u32,
    hdr_raw: u32,
    drv_caps: u32,
)
    requires
        0 <= n <= specs.len(),
    ensures
        modes_of(specs.take(n), bit_depth_raw, hdr_raw, drv_caps) matches Err(e) ==> modes_of(
            specs,
            bit_depth_raw,
            hdr_raw,
            drv_caps,
        ) == Err::<Seq<Mode>, CoreError>(e),
    decreases specs.len(),
{
    if n < specs.len() {
        assert(specs.drop_last().take(n) =~= specs.take(n));
        lemma_modes_of_prefix(specs.drop_last(), n, bit_depth_raw, hdr_raw, drv_caps);
    } else {
        assert(specs.take(n) =~= specs);
    }
}

/// The outcome of `Mode::select_targets`.
#[derive(Clone, Debug, PartialEq, Eq)]
pub struct TargetSelection {
    /// The target list to publish. Never publish it when it is empty.
    pub targets: Vec<Mode>,
    /// Requested entries the monitor can really offer.
    pub accepted: usize,
    /// Requested entries the monitor does not describe.
    pub rejected: usize,
    /// Index into the request of the first rejected entry.
    pub first_rejected: Option<usize>,
}

impl TargetSelection {
    /// Nothing in the request exists on this monitor.
    pub fn is_empty(&self) -> (r: bool)
        ensures
            r == (self.targets@.len() == 0),
    {
        self.targets.is_empty()
    }
}

/// Every published target is a mode the monitor describes, and is published once.
pub proof fn law_targets_within_supported(supported: Seq<Mode>, requested: Seq<Mode>)
    ensures
        forall|m: Mode|
            selected_targets(supported, requested).contains(m) <==> supported.contains(m)
                && requested.contains(m),
        selected_targets(supported, requested).no_duplicates(),
        selected_targets(supported, requested).len() <= requested.len(),
    decreases requested.len(),
{
    if requested.len() > 0 {
        let (rest, last) = (requested.drop_last(), requested.last());
        law_targets_within_supported(supported, rest);
        let before = selected_targets(supported, rest);
        let now = selected_targets(supported, requested);
        assert forall|m: Mode| now.contains(m) <==> supported.contains(m) && requested.contains(m) by {
            if now.contains(m) {
                let i = now.index_of(m);
                assert(i < before.len() ==> before[i] == m && before.contains(m));
                if before.contains(m) {
                    assert(rest.contains(m));
                    let j = rest.index_of(m);
                    assert(requested[j] == m);
                } else {
                    assert(requested[requested.len() - 1] == m);
                }
            }
            if supported.contains(m) && requested.contains(m) {
                let j = requested.index_of(m);
                if j < rest.len() {
                    assert(rest[j] == m);
                }
                assert(before.contains(m) || m == last);
                if before.contains(m) {
                    let i = before.index_of(m);
                    assert(now[i] == m);
                } else {
                    assert(now[now.len() - 1] == m);
                }
            }
        }
    }
}

/// A list without duplicates whose modes all exist is published as it stands.
pub proof fn law_supported_list_published_whole(supported: Seq<Mode>, requested: Seq<Mode>)
    requires
        requested.no_duplicates(),
        forall|i: int| 0 <= i < requested.len() ==> supported.contains(#[trigger] requested[i]),
    ensures
        selected_targets(supported, requested) == requested,
    decreases requested.len(),
{
    if requested.len() > 0 {
        let rest = requested.drop_last();
        law_supported_list_published_whole(supported, rest);
        assert(supported.contains(requested[requested.len() - 1]));
        assert(!rest.contains(requested.last()));
        assert(requested =~= rest.push(requested.last()));
    } else {
        assert(requested =~= Seq::<Mode>::empty());
    }
}

/// Requesting what is published changes nothing.
pub proof fn law_selection_idempotent(supported: Seq<Mode>, requested: Seq<Mode>)
    ensures
        selected_targets(supported, selected_targets(supported, requested)) == selected_targets(
            supported,
            requested,
        ),
{
    let t = selected_targets(supported, requested);
    law_targets_within_supported(supported, requested);
    assert forall|i: int| 0 <= i < t.len() implies supported.contains(#[trigger] t[i]) by {
        assert(t.contains(t[i]));
    }
    law_supported_list_published_whole(supported, t);
}

/// A first rejected entry is named exactly when one was rejected; it does not exist
/// on the monitor and every entry before it does.
pub proof fn law_first_rejected(supported: Seq<Mode>, requested: Seq<Mode>)
    requires
        requested.len() <= usize::MAX,
    ensures
        first_rejected(supported, requested) is None <==> accepted_count(supported, requested)
            == requested.len(),
        first_rejected(supported, requested) matches Some(i) ==> i < requested.len()
            && !supported.contains(requested[i as int]) && forall|j: int|
            0 <= j < i ==> supported.contains(#[trigger] requested[j]),
        first_rejected(supported, requested) is None ==> forall|j: int|
            0 <= j < requested.len() ==> supported.contains(#[trigger] requested[j]),
        accepted_count(supported, requested) <= requested.len(),
    decreases requested.len(),
{
    reveal(Seq::filter);
    if requested.len() > 0 {
        law_first_rejected(supported, requested.drop_last());
        assert forall|j: int| 0 <= j < requested.len() - 1 implies #[trigger] requested[j]
            == requested.drop_last()[j] by {}
    }
}

/// An accepted list is not empty, holds no mode twice, and every mode of it is
/// inside the envelope.
pub proof fn law_mode_list_valid(
    specs: Seq<ModeSpec>,
    mode_count: u32,
    bit_depth_raw: u32,
    hdr_raw: u32,
    drv_caps: u32,
)
    ensures
        mode_list_of(specs, mode_count, bit_depth_raw, hdr_raw, drv_caps) matches Ok(v) ==> {
            &&& v.len() == mode_count
            &&& 1 <= v.len() <= MAX_MODES_PER_MONITOR
            &&& v.no_duplicates()
            &&& forall|i: int|
                0 <= i < v.len() ==> in_envelope(
                    (#[trigger] v[i]).width,
                    v[i].height,
                    v[i].refresh_millihz,
                )
            &&& forall|i: int| 0 <= i < v.len() ==> (#[trigger] v[i]).bit_depth.raw() == bit_depth_raw
        },
{
    if 1 <= mode_count <= MAX_MODES_PER_MONITOR && mode_count <= specs.len() {
        lemma_modes_of_valid(specs.take(mode_count as int), bit_depth_raw, hdr_raw, drv_caps);
    }
}

proof fn lemma_modes_of_valid(specs: Seq<ModeSpec>, bit_depth_raw: u32, hdr_raw: u32, drv_caps: u32)
    ensures
        modes_of(specs, bit_depth_raw, hdr_raw, drv_caps) matches Ok(v) ==> {
            &&& v.len() == specs.len()
            &&& v.no_duplicates()
            &&& forall|i: int|
                0 <= i < v.len() ==> in_envelope(
                    (#[trigger] v[i]).width,
                    v[i].height,
                    v[i].refresh_millihz,
                )
            &&& forall|i: int| 0 <= i < v.len() ==> (#[trigger] v[i]).bit_depth.raw() == bit_depth_raw
        },
    decreases specs.len(),
{
    if specs.len() > 0 {
        lemma_modes_of_valid(specs.drop_last(), bit_depth_raw, hdr_raw, drv_caps);
    }
}

/// The description of a mode, with the limits written out: acceptance asks for
/// nothing beyond this, and what is accepted is what was asked for.
pub proof fn law_mode_acceptance_is_exact(
    width: u32,
    height: u32,
    refresh_millihz: u32,
    bit_depth_raw: u32,
    hdr_raw: u32,
    drv_caps: u32,
)
    ensures
        ({
            let fits = 320 <= width <= 7680 && width % 2 == 0 && 200 <= height <= 4320 && height % 2
                == 0 && refresh_millihz >= 1;
            let shown = {
                ||| hdr_raw == 0 && bit_depth_raw == 8
                ||| hdr_raw == 0 && bit_depth_raw == 10 && drv_caps & 4 != 0
                ||| hdr_raw == 1 && bit_depth_raw == 110 && drv_caps & 1 != 0
                ||| hdr_raw == 1 && bit_depth_raw == 112 && drv_caps & 1 != 0 && drv_caps & 2 != 0
            };
            let r = mode_of(width, height, refresh_millihz, bit_depth_raw, hdr_raw, drv_caps);
            &&& r is Ok <==> fits && shown
            &&& r matches Ok(m) ==> {
                &&& m.width == width
                &&& m.height == height
                &&& m.refresh_millihz == refresh_millihz
                &&& m.hdr == (hdr_raw == 1)
                &&& m.bit_depth is Sdr8 <==> bit_depth_raw == 8
                &&& m.bit_depth is Sdr10 <==> bit_depth_raw == 10
                &&& m.bit_depth is Hdr10 <==> bit_depth_raw == 110
                &&& m.bit_depth is Hdr12 <==> bit_depth_raw == 112
            }
        }),
{
}

/// Each refusal has its reason: a shape the driver does not show or a dynamic range
/// that is neither on nor off is a bad mode, high dynamic range without the capability
/// is unsupported, and every other combination is a bad depth.
pub proof fn law_mode_refusals(
    width: u32,
    height: u32,
    refresh_millihz: u32,
    bit_depth_raw: u32,
    hdr_raw: u32,
    drv_caps: u32,
)
    ensures
        ({
            let fits = 320 <= width <= 7680 && width % 2 == 0 && 200 <= height <= 4320 && height % 2
                == 0 && refresh_millihz >= 1;
            let known = bit_depth_raw == 8 || bit_depth_raw == 10 || bit_depth_raw == 110
                || bit_depth_raw == 112;
            let r = mode_of(width, height, refresh_millihz, bit_depth_raw, hdr_raw, drv_caps);
            &&& !fits ==> r == Err::<Mode, CoreError>(CoreError::BadMode)
            &&& fits && !known ==> r == Err::<Mode, CoreError>(CoreError::BadBitDepth)
            &&& fits && known && hdr_raw > 1 ==> r == Err::<Mode, CoreError>(CoreError::BadMode)
            &&& fits && hdr_raw == 0 && bit_depth_raw >= 110 && known ==> r == Err::<
                Mode,
                CoreError,
            >(CoreError::BadBitDepth)
            &&& fits && hdr_raw == 1 && bit_depth_raw <= 10 && known ==> r == Err::<
                Mode,
                CoreError,
            >(CoreError::BadBitDepth)
            &&& fits && hdr_raw == 0 && bit_depth_raw == 10 && drv_caps & 4 == 0 ==> r == Err::<
                Mode,
                CoreError,
            >(CoreError::BadBitDepth)
            &&& fits && hdr_raw == 1 && bit_depth_raw == 110 && drv_caps & 1 == 0 ==> r == Err::<
                Mode,
                CoreError,
            >(CoreError::HdrUnsupported)
            &&& fits && hdr_raw == 1 && bit_depth_raw == 112 && (drv_caps & 1 == 0 || drv_caps & 2
                == 0) ==> r == Err::<Mode, CoreError>(CoreError::HdrUnsupported)
        }),
{
}

/// A list is accepted exactly when it holds one to four entries, each entry describes
/// a mode, and no two describe the same one; the modes then stand in the order of the
/// entries, each with the size and rate of its entry.
pub proof fn law_mode_list_acceptance_is_exact(
    specs: Seq<ModeSpec>,
    mode_count: u32,
    bit_depth_raw: u32,
    hdr_raw: u32,
    drv_caps: u32,
)
    ensures
        ({
            let r = mode_list_of(specs, mode_count, bit_depth_raw, hdr_raw, drv_caps);
            &&& r is Ok <==> {
                &&& 1 <= mode_count <= 4
                &&& mode_count <= specs.len()
                &&& forall|i: int|
                    0 <= i < mode_count ==> mode_of(
                        (#[trigger] specs[i]).width,
                        specs[i].height,
                        specs[i].refresh_millihz,
                        bit_depth_raw,
                        hdr_raw,
                        drv_caps,
                    ) is Ok
                &&& forall|i: int, j: int|
                    0 <= i < j < mode_count ==> #[trigger] specs[i] != #[trigger] specs[j]
            }
            &&& r matches Ok(v) ==> {
                &&& v.len() == mode_count
                &&& forall|i: int|
                    0 <= i < mode_count ==> {
                        &&& (#[trigger] v[i]).width == specs[i].width
                        &&& v[i].height == specs[i].height
                        &&& v[i].refresh_millihz == specs[i].refresh_millihz
                        &&& v[i].hdr == (hdr_raw == 1)
                        &&& v[i].bit_depth.raw() == bit_depth_raw
                    }
            }
        }),
{
    if 1 <= mode_count <= 4 && mode_count <= specs.len() {
        let first = specs.take(mode_count as int);
        lemma_modes_of_exact(first, bit_depth_raw, hdr_raw, drv_caps);
        assert forall|i: int| 0 <= i < mode_count implies first[i] == #[trigger] specs[i] by {}
        if modes_of(first, bit_depth_raw, hdr_raw, drv_caps) is Ok {
            assert forall|i: int, j: int| 0 <= i < j < mode_count implies #[trigger] specs[i]
                != #[trigger] specs[j] by {
                assert(first[i] != first[j]);
            }
        }
    }
}

proof fn lemma_modes_of_exact(specs: Seq<ModeSpec>, bit_depth_raw: u32, hdr_raw: u32, drv_caps: u32)
    ensures
        ({
            let r = modes_of(specs, bit_depth_raw, hdr_raw, drv_caps);
            &&& r is Ok <==> {
                &&& forall|i: int|
                    0 <= i < specs.len() ==> mode_of(
                        (#[trigger] specs[i]).width,
                        specs[i].height,
                        specs[i].refresh_millihz,
                        bit_depth_raw,
                        hdr_raw,
                        drv_caps,
                    ) is Ok
                &&& forall|i: int, j: int|
                    0 <= i < j < specs.len() ==> #[trigger] specs[i] != #[trigger] specs[j]
            }
            &&& r matches Ok(v) ==> {
                &&& v.len() == specs.len()
                &&& forall|i: int|
                    0 <= i < specs.len() ==> {
                        &&& (#[trigger] v[i]).width == specs[i].width
                        &&& v[i].height == specs[i].height
                        &&& v[i].refresh_millihz == specs[i].refresh_millihz
                        &&& v[i].hdr == (hdr_raw == 1)
                        &&& v[i].bit_depth.raw() == bit_depth_raw
                    }
            }
        }),
    decreases specs.len(),
{
    if specs.len() > 0 {
        let (rest, s) = (specs.drop_last(), specs.last());
        let n = specs.len() - 1;
        lemma_modes_of_exact(rest, bit_depth_raw, hdr_raw, drv_caps);
        let before = modes_of(rest, bit_depth_raw, hdr_raw, drv_caps);
        let one = mode_of(s.width, s.height, s.refresh_millihz, bit_depth_raw, hdr_raw, drv_caps);
        let whole = modes_of(specs, bit_depth_raw, hdr_raw, drv_caps);
        assert forall|i: int| 0 <= i < n implies rest[i] == #[trigger] specs[i] by {}
        if before is Ok && one is Ok {
            let v = before->Ok_0;
            let m = one->Ok_0;
            if v.contains(m) {
                let i = v.index_of(m);
                assert(v[i].width == rest[i].width);
                assert(specs[i] == specs[n]);
            } else {
                assert forall|i: int, j: int| 0 <= i < j < specs.len() implies #[trigger] specs[i]
                    != #[trigger] specs[j] by {
                    if j < n {
                        assert(rest[i] != rest[j]);
                    } else if specs[i] == specs[n] {
                        assert(v[i].width == rest[i].width);
                        assert(v[i].bit_depth == m.bit_depth);
                        assert(v[i] == m);
                        assert(v.contains(m));
                    }
                }
            }
        } else if before is Err {
            if forall|i: int|
                0 <= i < specs.len() ==> mode_of(
                    (#[trigger] specs[i]).width,
                    specs[i].height,
                    specs[i].refresh_millihz,
                    bit_depth_raw,
                    hdr_raw,
                    drv_caps,
                ) is Ok {
                assert forall|i: int| 0 <= i < rest.len() implies mode_of(
                    (#[trigger] rest[i]).width,
                    rest[i].height,
                    rest[i].refresh_millihz,
                    bit_depth_raw,
                    hdr_raw,
                    drv_caps,
                ) is Ok by {
                    assert(rest[i] == specs[i]);
                }
                let (i, j) = choose|i: int, j: int|
                    0 <= i < j < rest.len() && #[trigger] rest[i] == #[trigger] rest[j];
                assert(specs[i] == specs[j]);
            }
        } else {
            assert(specs[n] == s);
        }
    }
}

/// The targets keep the order of the request, and a request changes nothing about the
/// targets of an earlier part of it.
pub proof fn law_targets_in_request_order(supported: Seq<Mode>, requested: Seq<Mode>, more: Mode)
    ensures
        ({
            let before = selected_targets(supported, requested);
            let after = selected_targets(supported, requested.push(more));
            after == (if supported.contains(more) && !requested.contains(more) {
                before.push(more)
            } else {
                before
            })
        }),
{
    law_targets_within_supported(supported, requested);
    assert(requested.push(more).drop_last() =~= requested);
}

/// Every requested entry counts as accepted or not, by whether the monitor describes
/// it.
pub proof fn law_accepted_count(supported: Seq<Mode>, requested: Seq<Mode>, more: Mode)
    ensures
        accepted_count(supported, Seq::<Mode>::empty()) == 0,
        accepted_count(supported, requested.push(more)) == accepted_count(supported, requested) + (
        if supported.contains(more) {
            1nat
        } else {
            0nat
        }),
{
    reveal(Seq::filter);
    assert(requested.push(more).drop_last() =~= requested);
}

} // verus!
