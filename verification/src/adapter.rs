//! Render-adapter selection. The host may pin an adapter; when it does not, the
//! adapter with the most dedicated memory is taken.
use vstd::prelude::*;

use crate::error::CoreError;

verus! {

/// One enumerated render adapter.
#[derive(Clone, Debug, PartialEq, Eq)]
pub struct AdapterInfo {
    /// LUID packed as `(high << 32) | low`. Never 0 for a real adapter: 0 is the
    /// wire value for the driver's default.
    pub luid: u64,
    /// Dedicated memory in bytes.
    pub vram_bytes: u64,
    /// Description, for diagnostics only.
    pub name: String,
    /// True for software rasterizers, which are never selected.
    pub software: bool,
}

/// Some adapter with this LUID renders in hardware.
pub open spec fn has_hardware(adapters: Seq<AdapterInfo>, luid: u64) -> bool {
    exists|i: int| 0 <= i < adapters.len() && #[trigger] adapters[i].luid == luid
        && !adapters[i].software
}

/// `a` goes before `b` as the default: more memory, then the smaller LUID.
pub open spec fn preferred(a: AdapterInfo, b: AdapterInfo) -> bool {
    a.vram_bytes > b.vram_bytes || (a.vram_bytes == b.vram_bytes && a.luid <= b.luid)
}

/// `luid` is that of a hardware adapter that goes before every other one.
pub open spec fn is_default(adapters: Seq<AdapterInfo>, luid: u64) -> bool {
    exists|i: int|
        {
            &&& 0 <= i < adapters.len()
            &&& !(#[trigger] adapters[i]).software
            &&& adapters[i].luid == luid
            &&& forall|j: int|
                0 <= j < adapters.len() && !(#[trigger] adapters[j]).software ==> preferred(
                    adapters[i],
                    adapters[j],
                )
        }
}

/// There is a hardware adapter at all.
pub open spec fn any_hardware(adapters: Seq<AdapterInfo>) -> bool {
    exists|i: int| 0 <= i < adapters.len() && !(#[trigger] adapters[i]).software
}

/// The adapter a request gets: the one it names, if that is enumerated and renders
/// in hardware, or the default when it names none.
pub open spec fn selected_adapter(adapters: Seq<AdapterInfo>, requested_luid: u64) -> Result<
    u64,
    CoreError,
> {
    if requested_luid != 0 {
        if has_hardware(adapters, requested_luid) {
            Ok(requested_luid)
        } else {
            Err(CoreError::NoAdapter)
        }
    } else if any_hardware(adapters) {
        Ok(choose|luid: u64| is_default(adapters, luid))
    } else {
        Err(CoreError::NoAdapter)
    }
}

proof fn lemma_default_unique(adapters: Seq<AdapterInfo>, a: u64, b: u64)
    requires
        is_default(adapters, a),
        is_default(adapters, b),
    ensures
        a == b,
{
}

proof fn lemma_default_exists(adapters: Seq<AdapterInfo>)
    requires
        any_hardware(adapters),
    ensures
        exists|luid: u64| is_default(adapters, luid),
    decreases adapters.len(),
{
    let (rest, last) = (adapters.drop_last(), adapters.last());
    let n = rest.len() as int;
    if any_hardware(rest) {
        lemma_default_exists(rest);
        let luid = choose|l: u64| is_default(rest, l);
        let i = choose|i: int|
            {
                &&& 0 <= i < rest.len()
                &&& !(#[trigger] rest[i]).software
                &&& rest[i].luid == luid
                &&& forall|j: int|
                    0 <= j < rest.len() && !(#[trigger] rest[j]).software ==> preferred(
                        rest[i],
                        rest[j],
                    )
            };
        let k = if last.software || preferred(rest[i], last) { i } else { n };
        assert forall|j: int|
            0 <= j < adapters.len() && !(#[trigger] adapters[j]).software implies preferred(
            adapters[k],
            adapters[j],
        ) by {
            if j < n {
                assert(preferred(rest[i], rest[j]));
            }
        }
        assert(!adapters[k].software);
        assert(is_default(adapters, adapters[k].luid));
    } else {
        assert forall|j: int| 0 <= j < n implies (#[trigger] adapters[j]).software by {
            assert(rest[j].software);
        }
        assert(!adapters[n].software);
        assert(is_default(adapters, last.luid));
    }
}

/// Resolve the adapter for a monitor.
pub fn select_adapter(adapters: &[AdapterInfo], requested_luid: u64) -> (r: Result<u64, CoreError>)
    ensures
        r == selected_adapter(adapters@, requested_luid),
        requested_luid == 0 ==> (r matches Ok(luid) ==> is_default(adapters@, luid)),
{
    let mut i: usize = 0;
    if requested_luid != 0 {
        while i < adapters.len()
            invariant
                requested_luid != 0,
                i <= adapters@.len(),
                forall|j: int|
                    0 <= j < i ==> !(#[trigger] adapters@[j].luid == requested_luid
                        && !adapters@[j].software),
            decreases adapters@.len() - i,
        {
            if adapters[i].luid == requested_luid && !adapters[i].software {
                return Ok(requested_luid);
            }
            i += 1;
        }
        return Err(CoreError::NoAdapter);
    }
    let mut best: Option<usize> = None;
    while i < adapters.len()
        invariant
            i <= adapters@.len(),
            best is None ==> forall|j: int| 0 <= j < i ==> (#[trigger] adapters@[j]).software,
            best matches Some(b) ==> b < i && !adapters@[b as int].software && forall|j: int|
                0 <= j < i && !(#[trigger] adapters@[j]).software ==> preferred(
                    adapters@[b as int],
                    adapters@[j],
                ),
        decreases adapters@.len() - i,
    {
        let a = &adapters[i];
        if !a.software {
            best = match best {
                None => Some(i),
                Some(b) => if a.vram_bytes > adapters[b].vram_bytes || (a.vram_bytes
                    == adapters[b].vram_bytes && a.luid < adapters[b].luid) {
                    Some(i)
                } else {
                    Some(b)
                },
            };
        }
        i += 1;
    }
    match best {
        Some(b) => {
            let luid: u64 = adapters[b].luid;
            proof {
                assert(is_default(adapters@, luid));
                lemma_default_unique(
                    adapters@,
                    luid,
                    choose|luid: u64| is_default(adapters@, luid),
                );
            }
            Ok(luid)
        },
        None => Err(CoreError::NoAdapter),
    }
}

/// The default depends on which adapters there are, not on the order in which they
/// were enumerated.
pub proof fn law_default_ignores_order(a: Seq<AdapterInfo>, b: Seq<AdapterInfo>, luid: u64)
    requires
        forall|x: AdapterInfo| a.contains(x) <==> b.contains(x),
        is_default(a, luid),
    ensures
        is_default(b, luid),
        selected_adapter(a, 0) == selected_adapter(b, 0),
{
    let i = choose|i: int|
        {
            &&& 0 <= i < a.len()
            &&& !(#[trigger] a[i]).software
            &&& a[i].luid == luid
            &&& forall|j: int|
                0 <= j < a.len() && !(#[trigger] a[j]).software ==> preferred(a[i], a[j])
        };
    assert(a.contains(a[i]));
    let k = b.index_of(a[i]);
    assert(b[k] == a[i]);
    assert forall|j: int| 0 <= j < b.len() && !(#[trigger] b[j]).software implies preferred(
        b[k],
        b[j],
    ) by {
        assert(b.contains(b[j]));
        let p = a.index_of(b[j]);
        assert(a[p] == b[j]);
    }
    lemma_default_unique(a, luid, choose|l: u64| is_default(a, l));
    lemma_default_unique(b, luid, choose|l: u64| is_default(b, l));
}

/// A software adapter is never what a request gets.
pub proof fn law_software_never_selected(adapters: Seq<AdapterInfo>, requested_luid: u64)
    ensures
        selected_adapter(adapters, requested_luid) matches Ok(luid) ==> has_hardware(adapters, luid),
{
    if requested_luid == 0 && any_hardware(adapters) {
        lemma_default_exists(adapters);
        let luid = choose|l: u64| is_default(adapters, l);
        assert(is_default(adapters, luid));
    }
}

/// Which adapter is chosen: the one that was named, if it is there and is not software;
/// where none was named, one that is not software and that no other such adapter beats
/// in memory, the smallest of those that tie. Where there is nothing to choose, none.
pub proof fn law_adapter_choice(adapters: Seq<AdapterInfo>, requested_luid: u64)
    ensures
        ({
            let r = selected_adapter(adapters, requested_luid);
            &&& r matches Err(e) ==> e == CoreError::NoAdapter
            &&& requested_luid != 0 ==> (r is Ok <==> exists|i: int|
                0 <= i < adapters.len() && (#[trigger] adapters[i]).luid == requested_luid
                    && !adapters[i].software)
            &&& requested_luid != 0 ==> (r matches Ok(luid) ==> luid == requested_luid)
            &&& requested_luid == 0 ==> (r is Ok <==> exists|i: int|
                0 <= i < adapters.len() && !(#[trigger] adapters[i]).software)
            &&& requested_luid == 0 ==> (r matches Ok(luid) ==> exists|i: int|
                0 <= i < adapters.len() && (#[trigger] adapters[i]).luid == luid
                    && !adapters[i].software && forall|j: int|
                    0 <= j < adapters.len() && !(#[trigger] adapters[j]).software
                        ==> adapters[j].vram_bytes < adapters[i].vram_bytes || (
                    adapters[j].vram_bytes == adapters[i].vram_bytes && luid <= adapters[j].luid))
        }),
{
    if requested_luid == 0 && any_hardware(adapters) {
        lemma_default_exists(adapters);
        let luid = choose|luid: u64| is_default(adapters, luid);
        let i = choose|i: int|
            {
                &&& 0 <= i < adapters.len()
                &&& !(#[trigger] adapters[i]).software
                &&& adapters[i].luid == luid
                &&& forall|j: int|
                    0 <= j < adapters.len() && !(#[trigger] adapters[j]).software ==> preferred(
                        adapters[i],
                        adapters[j],
                    )
            };
        assert(adapters[i].luid == luid);
    }
}

} // verus!
