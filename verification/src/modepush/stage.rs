//! Where a mode push stopped. Numbers are never reused; 6 and 7 belong to the
//! control path.
use vstd::prelude::*;

verus! {

/// The session has neither a live nor a parked monitor.
pub const NO_MONITOR: u32 = 0;
/// Empty list.
pub const EMPTY: u32 = 1;
/// Applied to a parked monitor; no call was made.
pub const PARKED: u32 = 2;
/// A device recovery is in flight.
pub const DUCK_PENDING: u32 = 3;
/// The operating system refused the list.
pub const OS_CALL: u32 = 4;
/// The monitor changed under a failed push, so nothing was put back.
pub const ROLLBACK_RACED: u32 = 5;
/// The adapter was gone before the push.
pub const NO_ADAPTER: u32 = 8;
/// A target is not one of the monitor's modes.
pub const NOT_IN_SUPERSET: u32 = 9;
/// The list would gate out the committed mode.
pub const GATES_COMMITTED: u32 = 10;
/// The adapter went away between publishing the list and the call.
pub const ADAPTER_TORN_DOWN: u32 = 11;

/// The stages in numbers, as they stand in reports.
pub proof fn law_stage_values()
    ensures
        NO_MONITOR == 0 && EMPTY == 1 && PARKED == 2 && DUCK_PENDING == 3 && OS_CALL == 4,
        ROLLBACK_RACED == 5 && NO_ADAPTER == 8 && NOT_IN_SUPERSET == 9,
        GATES_COMMITTED == 10 && ADAPTER_TORN_DOWN == 11,
{
}

} // verus!
