//! The permanent pool: identical displays that exist outside any session. They use
//! permanent identities and leases that never expire.
use vstd::prelude::*;

use crate::error::CoreError;
use crate::identity::{permanent_display_id, permanent_id, PERMANENT_DISPLAY_ID_BASE};
use crate::modes::{mode_of, Mode};
use crate::proto::{
    CreateMonitorRequest, ModeSpec, PermanentPoolConfig, LEASE_TIMEOUT_DISABLED,
    MAX_PERMANENT_DISPLAYS,
};

verus! {

/// The lease key of a pool member, in the permanent range.
pub open spec fn member_session(index: u32) -> u64 {
    PERMANENT_DISPLAY_ID_BASE | 0x0100_0000_0000_0000 | index as u64
}

pub fn permanent_session_id(index: u32) -> (r: u64)
    ensures
        r == member_session(index),
{
    PERMANENT_DISPLAY_ID_BASE | 0x0100_0000_0000_0000 | index as u64
}

/// A pool that can be put in force: few enough members, and a mode the driver can
/// show if there are any.
pub open spec fn pool_valid(config: PermanentPoolConfig, drv_caps: u32, max_monitors: u32) -> bool {
    &&& config.count <= MAX_PERMANENT_DISPLAYS
    &&& config.count <= max_monitors
    &&& config.count > 0 ==> mode_of(
        config.width,
        config.height,
        config.refresh_millihz,
        config.bit_depth,
        config.hdr,
        drv_caps,
    ) is Ok
}

/// Validate a pool configuration.
pub fn validate(config: &PermanentPoolConfig, drv_caps: u32, max_monitors: u32) -> (r: Result<
    (),
    CoreError,
>)
    ensures
        r == (if pool_valid(*config, drv_caps, max_monitors) {
            Ok::<(), CoreError>(())
        } else {
            Err(CoreError::BadPool)
        }),
{
    if config.count > MAX_PERMANENT_DISPLAYS || config.count > max_monitors {
        return Err(CoreError::BadPool);
    }
    if config.count > 0 {
        if Mode::validate(
            config.width,
            config.height,
            config.refresh_millihz,
            config.bit_depth,
            config.hdr,
            drv_caps,
        ).is_err() {
            return Err(CoreError::BadPool);
        }
    }
    Ok(())
}

/// The create request of pool member `index`.
pub open spec fn member_request_of(config: PermanentPoolConfig, index: u32) -> CreateMonitorRequest {
    let none = ModeSpec { width: 0, height: 0, refresh_millihz: 0 };
    CreateMonitorRequest {
        session_id: member_session(index),
        display_id: permanent_id(index),
        adapter_luid: 0,
        lease_timeout_ms: LEASE_TIMEOUT_DISABLED,
        bit_depth: config.bit_depth,
        hdr: config.hdr,
        edid_serial: 0,
        flags: 0,
        mode_count: 1,
        modes: [
            ModeSpec {
                width: config.width,
                height: config.height,
                refresh_millihz: config.refresh_millihz,
            },
            none,
            none,
            none,
        ],
        physical_width_mm: config.physical_width_mm,
        physical_height_mm: config.physical_height_mm,
        friendly_name: config.name,
        max_nits: 0,
        reserved0: 0,
    }
}

pub fn member_request(config: &PermanentPoolConfig, index: u32) -> (r: CreateMonitorRequest)
    ensures
        r == member_request_of(*config, index),
{
    let none = ModeSpec::zero();
    let first = ModeSpec {
        width: config.width,
        height: config.height,
        refresh_millihz: config.refresh_millihz,
    };
    CreateMonitorRequest {
        session_id: permanent_session_id(index),
        display_id: permanent_display_id(index),
        adapter_luid: 0,
        lease_timeout_ms: LEASE_TIMEOUT_DISABLED,
        bit_depth: config.bit_depth,
        hdr: config.hdr,
        edid_serial: 0,
        flags: 0,
        mode_count: 1,
        modes: [first, none, none, none],
        physical_width_mm: config.physical_width_mm,
        physical_height_mm: config.physical_height_mm,
        friendly_name: config.name,
        max_nits: 0,
        reserved0: 0,
    }
}

/// Which pool members to destroy and which to create, in that order.
#[derive(Debug, PartialEq, Eq)]
pub struct Reconcile {
    pub destroy: Vec<u32>,
    pub create: Vec<u32>,
}

/// The numbers from `lo` up to but not including `hi`.
pub open spec fn indices(lo: u32, hi: u32) -> Seq<u32> {
    Seq::new(
        if lo <= hi {
            (hi - lo) as nat
        } else {
            0
        },
        |i: int| (lo + i) as u32,
    )
}

/// Two pools whose members look the same.
pub open spec fn same_settings(a: PermanentPoolConfig, b: PermanentPoolConfig) -> bool {
    PermanentPoolConfig { count: b.count, ..a } == b
}

/// Members to destroy when a pool of `live` members becomes `desired`.
pub open spec fn to_destroy(
    current: PermanentPoolConfig,
    live: u32,
    desired: PermanentPoolConfig,
) -> Seq<u32> {
    if same_settings(current, desired) {
        indices(desired.count, live)
    } else {
        indices(0, live)
    }
}

/// Members to create when a pool of `live` members becomes `desired`.
pub open spec fn to_create(
    current: PermanentPoolConfig,
    live: u32,
    desired: PermanentPoolConfig,
) -> Seq<u32> {
    if same_settings(current, desired) {
        indices(live, desired.count)
    } else {
        indices(0, desired.count)
    }
}

fn range(lo: u32, hi: u32) -> (r: Vec<u32>)
    ensures
        r@ == indices(lo, hi),
{
    let mut out: Vec<u32> = Vec::new();
    let mut i: u32 = lo;
    while i < hi
        invariant
            lo <= i,
            lo <= hi ==> i <= hi,
            lo > hi ==> i == lo,
            out@.len() == i - lo,
            forall|j: int| 0 <= j < out@.len() ==> #[trigger] out@[j] == lo + j,
        decreases hi - i,
    {
        out.push(i);
        i += 1;
    }
    assert(out@ =~= indices(lo, hi));
    out
}

fn same_name(a: &[u16; 32], b: &[u16; 32]) -> (r: bool)
    ensures
        r == (*a == *b),
{
    let mut i: usize = 0;
    while i < 32
        invariant
            i <= 32,
            forall|j: int| 0 <= j < i ==> a@[j] == b@[j],
        decreases 32 - i,
    {
        if a[i] != b[i] {
            assert(a@ != b@);
            return false;
        }
        i += 1;
    }
    assert(*a =~= *b);
    true
}

/// Compare the live pool with a desired one. Members whose settings changed are
/// destroyed and created again.
pub fn reconcile(
    current: &PermanentPoolConfig,
    current_count: u32,
    desired: &PermanentPoolConfig,
) -> (r: Reconcile)
    ensures
        r.destroy@ == to_destroy(*current, current_count, *desired),
        r.create@ == to_create(*current, current_count, *desired),
{
    let same: bool = current.width == desired.width && current.height == desired.height
        && current.refresh_millihz == desired.refresh_millihz && current.bit_depth
        == desired.bit_depth && current.hdr == desired.hdr && current.physical_width_mm
        == desired.physical_width_mm && current.physical_height_mm == desired.physical_height_mm
        && same_name(&current.name, &desired.name);
    if !same {
        return Reconcile { destroy: range(0, current_count), create: range(0, desired.count) };
    }
    Reconcile {
        destroy: range(desired.count, current_count),
        create: range(current_count, desired.count),
    }
}

/// Destroying and creating what `reconcile` says turns members `0..live` into
/// members `0..desired.count`: only live members are destroyed, none is created
/// twice, and none survives a change of settings.
pub proof fn law_reconcile_reaches_desired(
    current: PermanentPoolConfig,
    live: u32,
    desired: PermanentPoolConfig,
    index: u32,
)
    ensures
        ({
            let gone = to_destroy(current, live, desired).contains(index);
            let made = to_create(current, live, desired).contains(index);
            &&& gone ==> index < live
            &&& made ==> index >= live || gone
            &&& (index < live && !gone) || made <==> index < desired.count
            &&& !same_settings(current, desired) && index < live ==> gone
        }),
{
    assert forall|lo: u32, hi: u32| #[trigger] indices(lo, hi).contains(index) <==> lo <= index < hi by {
        if lo <= index < hi {
            assert(indices(lo, hi)[index - lo] == index);
        }
    }
}

/// A pool that is what it should be is left alone.
pub proof fn law_reconcile_idle(config: PermanentPoolConfig)
    ensures
        to_destroy(config, config.count, config).len() == 0,
        to_create(config, config.count, config).len() == 0,
{
}

/// Pool members of different index have different leases, and a lease key is never
/// an identity of the pool or unset.
pub proof fn law_member_sessions_distinct(a: u32, b: u32)
    ensures
        member_session(a) == member_session(b) ==> a == b,
        member_session(a) != permanent_id(b),
        member_session(a) != 0,
        crate::identity::in_permanent_range(member_session(a)),
{
    assert((0x7000_0000_0000_0000u64 | 0x0100_0000_0000_0000u64 | a as u64) & 0xFFFF_FFFFu64
        == a as u64) by (bit_vector);
    assert((0x7000_0000_0000_0000u64 | 0x0100_0000_0000_0000u64 | b as u64) & 0xFFFF_FFFFu64
        == b as u64) by (bit_vector);
    assert((0x7000_0000_0000_0000u64 | 0x0100_0000_0000_0000u64 | a as u64)
        != 0x7000_0000_0000_0000u64 | b as u64) by (bit_vector);
    assert((0x7000_0000_0000_0000u64 | 0x0100_0000_0000_0000u64 | a as u64)
        & 0xF000_0000_0000_0000u64 == 0x7000_0000_0000_0000u64) by (bit_vector);
    assert((0x7000_0000_0000_0000u64 | 0x0100_0000_0000_0000u64 | a as u64) != 0) by (bit_vector);
}

/// A pool member asks for exactly the one mode of the configuration, at its physical
/// size and under its name, with a lease that never ends and nothing else of its own.
pub proof fn law_member_request_carries_the_configuration(config: PermanentPoolConfig, index: u32)
    ensures
        ({
            let r = member_request_of(config, index);
            &&& r.mode_count == 1
            &&& r.modes@[0].width == config.width
            &&& r.modes@[0].height == config.height
            &&& r.modes@[0].refresh_millihz == config.refresh_millihz
            &&& forall|i: int|
                1 <= i < 4 ==> (#[trigger] r.modes@[i]).width == 0 && r.modes@[i].height == 0
                    && r.modes@[i].refresh_millihz == 0
            &&& r.bit_depth == config.bit_depth
            &&& r.hdr == config.hdr
            &&& r.physical_width_mm == config.physical_width_mm
            &&& r.physical_height_mm == config.physical_height_mm
            &&& r.friendly_name == config.name
            &&& r.lease_timeout_ms == 0xFFFF_FFFF
            &&& r.session_id == 0x7100_0000_0000_0000 + index
            &&& r.display_id == 0x7000_0000_0000_0000 + index
            &&& r.adapter_luid == 0
            &&& r.edid_serial == 0
            &&& r.flags == 0
            &&& r.max_nits == 0
            &&& r.reserved0 == 0
        }),
{
    assert((0x7000_0000_0000_0000u64 | 0x0100_0000_0000_0000u64 | index as u64)
        == 0x7100_0000_0000_0000u64 + index as u64 && (0x7000_0000_0000_0000u64 | index as u64)
        == 0x7000_0000_0000_0000u64 + index as u64) by (bit_vector);
}

/// What makes a pool acceptable, with the limits written out.
pub proof fn law_pool_acceptance_is_exact(config: PermanentPoolConfig, drv_caps: u32, max_monitors: u32)
    ensures
        pool_valid(config, drv_caps, max_monitors) <==> config.count == 0 || {
            &&& config.count <= 4
            &&& config.count <= max_monitors
            &&& 320 <= config.width <= 7680 && config.width % 2 == 0
            &&& 200 <= config.height <= 4320 && config.height % 2 == 0
            &&& config.refresh_millihz >= 1
            &&& {
                ||| config.hdr == 0 && config.bit_depth == 8
                ||| config.hdr == 0 && config.bit_depth == 10 && drv_caps & 4 != 0
                ||| config.hdr == 1 && config.bit_depth == 110 && drv_caps & 1 != 0
                ||| config.hdr == 1 && config.bit_depth == 112 && drv_caps & 1 != 0 && drv_caps & 2
                    != 0
            }
        },
{
    crate::modes::law_mode_acceptance_is_exact(
        config.width,
        config.height,
        config.refresh_millihz,
        config.bit_depth,
        config.hdr,
        drv_caps,
    );
}

/// Two pools look the same exactly when every setting but the count agrees; only then
/// do members survive the change from one to the other.
pub proof fn law_members_survive_only_same_settings(
    current: PermanentPoolConfig,
    live: u32,
    desired: PermanentPoolConfig,
    index: u32,
)
    requires
        index < live,
    ensures
        to_destroy(current, live, desired).contains(index) <==> {
            ||| index >= desired.count
            ||| current.width != desired.width
            ||| current.height != desired.height
            ||| current.refresh_millihz != desired.refresh_millihz
            ||| current.bit_depth != desired.bit_depth
            ||| current.hdr != desired.hdr
            ||| current.physical_width_mm != desired.physical_width_mm
            ||| current.physical_height_mm != desired.physical_height_mm
            ||| current.name != desired.name
        },
{
    assert forall|lo: u32, hi: u32| #[trigger] indices(lo, hi).contains(index) <==> lo <= index < hi by {
        if lo <= index < hi {
            assert(indices(lo, hi)[index - lo] == index);
        }
    }
}

/// Members are destroyed and created in ascending order, each once.
pub proof fn law_reconcile_in_order(
    current: PermanentPoolConfig,
    live: u32,
    desired: PermanentPoolConfig,
    i: int,
    j: int,
)
    ensures
        0 <= i < j < to_destroy(current, live, desired).len() ==> to_destroy(
            current,
            live,
            desired,
        )[i] < to_destroy(current, live, desired)[j],
        0 <= i < j < to_create(current, live, desired).len() ==> to_create(current, live, desired)[i]
            < to_create(current, live, desired)[j],
{
}

} // verus!
