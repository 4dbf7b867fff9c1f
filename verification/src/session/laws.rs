//! What holds of the session table across requests.
use vstd::prelude::*;

use crate::adapter::AdapterInfo;
use crate::error::CoreError;
use crate::modes::{
    accepted_count, first_rejected, law_targets_within_supported, mode_list_of, selected_targets,
    Mode,
};
use crate::proto::err;
use crate::proto::{
    CreateMonitorRequest, ModeSpec, DEFAULT_LEASE_TIMEOUT_MS, LEASE_TIMEOUT_DISABLED,
    MAX_LEASE_TIMEOUT_MS, MIN_LEASE_TIMEOUT_MS,
};
use crate::session::model::{
    identity_of, lease_timeout, lemma_connector_available, lemma_without_sessions_wf, publishable,
    reserved_identity, wants_ephemeral, ModeUpdateResult, MonitorModel, SettleOutcome, TableModel,
};

verus! {

/// Two live monitors never share a session, an identity or a connector.
pub proof fn law_live_monitors_distinct(t: TableModel, a: u64, b: u64)
    requires
        t.wf(),
        t.monitors.dom().contains(a),
        t.monitors.dom().contains(b),
        a != b,
    ensures
        t.monitors[a].session_id != t.monitors[b].session_id,
        t.monitors[a].display_id != t.monitors[b].display_id,
        t.monitors[a].connector_index != t.monitors[b].connector_index,
{
    assert(t.monitor_ok(a));
    assert(t.monitor_ok(b));
    let (x, y) = (t.monitors[a], t.monitors[b]);
    let (p, q) = (
        t.connectors.reservations[x.display_id],
        t.connectors.reservations[y.display_id],
    );
    assert(p.connector != q.connector);
}

/// Every live monitor publishes something, and nothing it does not describe.
pub proof fn law_published_within_described(t: TableModel, s: u64)
    requires
        t.wf(),
        t.monitors.dom().contains(s),
    ensures
        t.monitors[s].target_modes.len() > 0,
        forall|m: Mode| t.monitors[s].target_modes.contains(m) ==> t.monitors[s].modes.contains(m),
{
    assert(t.monitor_ok(s));
}

/// A refused create request leaves the table as it was.
pub proof fn law_refused_create_changes_nothing(
    t: TableModel,
    now_ms: u64,
    req: CreateMonitorRequest,
    drv_caps: u32,
    adapters: Seq<AdapterInfo>,
    preferred: u64,
)
    requires
        t.create_refusal(req, drv_caps, adapters, preferred) is Some,
    ensures
        t.after_create(now_ms, req, drv_caps, adapters, preferred) == t,
{
}

/// An accepted create request adds one monitor, under its own session, and touches
/// no other.
pub proof fn law_create_adds_one(
    t: TableModel,
    now_ms: u64,
    req: CreateMonitorRequest,
    drv_caps: u32,
    adapters: Seq<AdapterInfo>,
    preferred: u64,
)
    requires
        t.wf(),
        t.create_refusal(req, drv_caps, adapters, preferred) is None,
    ensures
        ({
            let n = t.after_create(now_ms, req, drv_caps, adapters, preferred);
            &&& !t.monitors.dom().contains(req.session_id)
            &&& n.monitors.dom() == t.monitors.dom().insert(req.session_id)
            &&& n.monitors.dom().len() == t.monitors.dom().len() + 1
            &&& forall|s: u64| #[trigger]
                t.monitors.dom().contains(s) ==> n.monitors[s] == t.monitors[s]
        }),
{
    let n = t.after_create(now_ms, req, drv_caps, adapters, preferred);
    assert(n.monitors.dom() =~= t.monitors.dom().insert(req.session_id));
}

/// An identity that holds a connector is attached to that connector.
pub proof fn law_reserved_identity_gets_its_connector(
    t: TableModel,
    now_ms: u64,
    req: CreateMonitorRequest,
    drv_caps: u32,
    adapters: Seq<AdapterInfo>,
    preferred: u64,
)
    requires
        t.wf(),
        t.connectors.reservations.dom().contains(identity_of(req)),
    ensures
        t.new_monitor(now_ms, req, drv_caps, adapters, preferred).connector_index
            == t.connectors.reservations[identity_of(req)].connector,
{
}

/// The end of a session takes the connector only from a throwaway identity.
pub proof fn law_stable_identity_keeps_connector(t: TableModel, dead: Set<u64>, display_id: u64)
    requires
        t.wf(),
        t.connectors.reservations.dom().contains(display_id),
        forall|s: u64| #[trigger]
            dead.contains(s) && t.monitors.dom().contains(s) && t.monitors[s].ephemeral_identity
                ==> t.monitors[s].display_id != display_id,
    ensures
        t.without_sessions(dead).connectors.reservations.dom().contains(display_id),
        t.without_sessions(dead).connectors.reservations[display_id]
            == t.connectors.reservations[display_id],
{
    if t.throwaway_identities(dead).contains(display_id) {
        let s = choose|s: u64| #[trigger]
            dead.contains(s) && t.monitors.dom().contains(s) && t.monitors[s].ephemeral_identity
                && t.monitors[s].display_id == display_id;
    }
}

/// The end of a session, in any table: its monitor is gone, every other is untouched, and
/// a connector is given up exactly by a throwaway identity. A stable identity that is
/// created again next is the same monitor as before: same connector, same product code,
/// and, where neither request sets a serial, the same serial.
pub proof fn law_ended_identity_returns_the_same(
    t: TableModel,
    s: u64,
    again: CreateMonitorRequest,
    now_ms: u64,
    drv_caps: u32,
    adapters: Seq<AdapterInfo>,
    preferred: u64,
)
    requires
        t.wf(),
        t.monitors.dom().contains(s),
    ensures
        ({
            let m = t.monitors[s];
            let n = t.without_sessions(set![s]);
            let kept = n.connectors.reservations;
            let b = n.new_monitor(now_ms, again, drv_caps, adapters, preferred);
            &&& n.wf()
            &&& n.monitors == t.monitors.remove(s)
            &&& kept == (if m.ephemeral_identity {
                t.connectors.reservations.remove(m.display_id)
            } else {
                t.connectors.reservations
            })
            &&& !m.ephemeral_identity && identity_of(again) == m.display_id ==> {
                &&& b.display_id == m.display_id
                &&& b.connector_index == m.connector_index
                &&& b.product_code == m.product_code
                &&& m.derived_serial && again.edid_serial == 0 ==> b.edid_serial == m.edid_serial
            }
        }),
{
    let m = t.monitors[s];
    let n = t.without_sessions(set![s]);
    assert(t.monitor_ok(s));
    lemma_without_sessions_wf(t, set![s]);
    assert(n.monitors =~= t.monitors.remove(s));
    let gone = t.throwaway_identities(set![s]);
    assert(set![s].contains(s));
    assert forall|d: u64| gone.contains(d) == (m.ephemeral_identity && d == m.display_id) by {}
    assert(n.connectors.reservations =~= (if m.ephemeral_identity {
        t.connectors.reservations.remove(m.display_id)
    } else {
        t.connectors.reservations
    }));
}

/// A client that reconnects under a new lease, with somebody else served from a
/// free connector in between, comes back as the same monitor: same connector, same
/// product code, same serial.
pub proof fn law_reconnect_restores_identity(
    t: TableModel,
    first: CreateMonitorRequest,
    other: CreateMonitorRequest,
    again: CreateMonitorRequest,
    now_ms: u64,
    drv_caps: u32,
    adapters: Seq<AdapterInfo>,
    preferred: u64,
)
    requires
        t.wf(),
        !wants_ephemeral(first),
        !wants_ephemeral(again),
        first.display_id == again.display_id,
        first.edid_serial == 0,
        again.edid_serial == 0,
        t.create_refusal(first, drv_caps, adapters, preferred) is None,
        ({
            let t1 = t.after_create(now_ms, first, drv_caps, adapters, preferred);
            let t2 = t1.without_sessions(set![first.session_id]);
            &&& t1.wf()
            &&& t2.connectors.any_free()
            &&& t2.create_refusal(other, drv_caps, adapters, preferred) is None
        }),
    ensures
        ({
            let t1 = t.after_create(now_ms, first, drv_caps, adapters, preferred);
            let t2 = t1.without_sessions(set![first.session_id]);
            let t3 = t2.after_create(now_ms, other, drv_caps, adapters, preferred);
            let a = t.new_monitor(now_ms, first, drv_caps, adapters, preferred);
            let b = t3.new_monitor(now_ms, again, drv_caps, adapters, preferred);
            &&& a.display_id == b.display_id
            &&& a.connector_index == b.connector_index
            &&& a.product_code == b.product_code
            &&& a.edid_serial == b.edid_serial
        }),
{
    let id = first.display_id;
    lemma_connector_available(t, id);
    let t1 = t.after_create(now_ms, first, drv_caps, adapters, preferred);
    let t2 = t1.without_sessions(set![first.session_id]);
    assert(t1.connectors.reservations.dom().contains(id));
    law_stable_identity_keeps_connector(t1, set![first.session_id], id);
    lemma_without_sessions_wf(t1, set![first.session_id]);
    crate::identity::law_free_connectors_go_first(
        t2.connectors,
        identity_of(other),
        t2.live_identities(),
        id,
    );
}

/// Only the driver itself can use the identities of the permanent pool and of
/// throwaway displays: they are reserved to hosts.
pub proof fn law_reserved_ranges(index: u32, session_id: u64)
    ensures
        reserved_identity(crate::identity::permanent_id(index)),
        reserved_identity(crate::identity::ephemeral_id(session_id)),
        !reserved_identity(0),
{
    assert(0u64 & 0xF000_0000_0000_0000u64 == 0) by (bit_vector);
    crate::identity::law_identity_ranges_disjoint(index, session_id, 0);
}

/// A resolved lease timeout is within bounds or switched off.
pub proof fn law_lease_timeout_bounds(requested_ms: u32, watchdog_secs: u32)
    ensures
        lease_timeout(requested_ms, watchdog_secs) == LEASE_TIMEOUT_DISABLED
            || MIN_LEASE_TIMEOUT_MS <= lease_timeout(requested_ms, watchdog_secs)
            <= MAX_LEASE_TIMEOUT_MS,
        requested_ms == 0 && watchdog_secs > 0 ==> DEFAULT_LEASE_TIMEOUT_MS <= lease_timeout(
            requested_ms,
            watchdog_secs,
        ),
{
}

/// A lease that has time left is not reaped, one that is reaped had none left, and
/// one that never expires never is.
pub proof fn law_lease_and_watchdog_agree(m: MonitorModel, now_ms: u64)
    ensures
        m.lease_remaining(now_ms) > 0 ==> !m.expired(now_ms),
        m.expired(now_ms) ==> m.lease_remaining(now_ms) == 0,
        m.lease_timeout_ms == LEASE_TIMEOUT_DISABLED ==> !m.expired(now_ms) && m.lease_remaining(
            now_ms,
        ) == u32::MAX,
        m.expired(now_ms) <==> m.lease_timeout_ms != LEASE_TIMEOUT_DISABLED && now_ms
            > m.last_ping_ms + m.lease_timeout_ms,
{
}

/// A pinged session survives the watchdog for a whole lease, and the ping feeds no
/// other session.
pub proof fn law_ping_feeds_one_lease(t: TableModel, now_ms: u64, s: u64, later_ms: u64)
    requires
        t.wf(),
        t.monitors.dom().contains(s),
        later_ms <= now_ms + t.monitors[s].lease_timeout_ms,
    ensures
        t.pinged(now_ms, s).monitors[s].lease_remaining(now_ms) == t.monitors[s].lease_timeout_ms,
        !t.pinged(now_ms, s).expired_sessions(later_ms).contains(s),
        forall|o: u64| o != s ==> t.pinged(now_ms, s).monitors[o] == #[trigger] t.monitors[o],
        t.pinged(now_ms, s).monitors.dom() == t.monitors.dom(),
{
    assert(t.pinged(now_ms, s).monitors.dom() =~= t.monitors.dom());
}

/// The watchdog ends the sessions whose lease has run out and no others.
pub proof fn law_tick_reaps_exactly_the_expired(t: TableModel, now_ms: u64, s: u64)
    ensures
        t.without_sessions(t.expired_sessions(now_ms)).monitors.dom().contains(s)
            <==> t.monitors.dom().contains(s) && !t.monitors[s].expired(now_ms),
        t.without_sessions(t.expired_sessions(now_ms)).monitors.dom().contains(s)
            ==> t.without_sessions(t.expired_sessions(now_ms)).monitors[s] == t.monitors[s],
{
}

/// A mode update never changes what a monitor describes or publishes, and touches
/// no other session.
pub proof fn law_update_publishes_nothing_yet(
    t: TableModel,
    s: u64,
    requested: Seq<Mode>,
    token: u64,
    o: u64,
)
    requires
        t.wf(),
        t.monitors.dom().contains(s),
    ensures
        ({
            let n = t.after_update(s, requested, token);
            &&& n.monitors.dom() == t.monitors.dom()
            &&& n.monitors[s].modes == t.monitors[s].modes
            &&& n.monitors[s].target_modes == t.monitors[s].target_modes
            &&& o != s ==> n.monitors[o] == t.monitors[o]
        }),
{
    assert(t.after_update(s, requested, token).monitors.dom() =~= t.monitors.dom());
}

/// Every requested mode is either accepted or rejected, and the first one that is
/// rejected is named.
pub proof fn law_update_accounts_for_every_mode(
    t: TableModel,
    s: u64,
    requested: Seq<Mode>,
    token: u64,
)
    requires
        t.wf(),
        t.monitors.dom().contains(s),
    ensures
        ({
            let a = t.update_answer(s, requested, token);
            let described = t.monitors[s].modes;
            &&& a.accepted + a.rejected == requested.len()
            &&& a.rejected == 0 <==> a.first_rejected is None
            &&& a.first_rejected is None <==> forall|i: int|
                0 <= i < requested.len() ==> described.contains(#[trigger] requested[i])
            &&& requested.len() <= usize::MAX ==> (a.first_rejected matches Some(i) ==> i
                < requested.len() && !described.contains(requested[i as int]) && forall|j: int|
                0 <= j < i ==> described.contains(#[trigger] requested[j]))
        }),
{
    lemma_accounting(t.monitors[s].modes, requested);
}

proof fn lemma_accounting(described: Seq<Mode>, requested: Seq<Mode>)
    ensures
        accepted_count(described, requested) <= requested.len(),
        accepted_count(described, requested) == requested.len() <==> first_rejected(
            described,
            requested,
        ) is None,
        first_rejected(described, requested) is None <==> forall|i: int|
            0 <= i < requested.len() ==> described.contains(#[trigger] requested[i]),
        requested.len() <= usize::MAX ==> (first_rejected(described, requested) matches Some(i)
            ==> i < requested.len() && !described.contains(requested[i as int]) && forall|j: int|
            0 <= j < i ==> described.contains(#[trigger] requested[j])),
    decreases requested.len(),
{
    reveal(Seq::filter);
    if requested.len() > 0 {
        let rest = requested.drop_last();
        lemma_accounting(described, rest);
        assert(forall|i: int| 0 <= i < rest.len() ==> rest[i] == requested[i]);
        if first_rejected(described, requested) is None {
            assert forall|i: int| 0 <= i < requested.len() implies described.contains(
                #[trigger] requested[i],
            ) by {
                if i < rest.len() {
                    assert(described.contains(rest[i]));
                }
            }
        } else if first_rejected(described, rest) is Some {
            if forall|i: int| 0 <= i < requested.len() ==> described.contains(#[trigger] requested[i]) {
                assert forall|i: int| 0 <= i < rest.len() implies described.contains(
                    #[trigger] rest[i],
                ) by {
                    assert(described.contains(requested[i]));
                }
            }
            assert(forall|j: int| 0 <= j < rest.len() ==> #[trigger] requested[j] == rest[j]);
        } else {
            assert(!described.contains(requested[requested.len() - 1]));
            assert forall|j: int| 0 <= j < rest.len() implies described.contains(
                #[trigger] requested[j],
            ) by {
                assert(described.contains(rest[j]));
            }
        }
    }
}

/// An answer without a flag or an error means that the monitor publishes exactly the
/// modes asked for, right now, and that nothing was left to do.
pub proof fn law_plain_success_means_in_force(
    t: TableModel,
    s: u64,
    requested: Seq<Mode>,
    token: u64,
)
    requires
        t.wf(),
        t.monitors.dom().contains(s),
        t.update_answer(s, requested, token).rejected == 0,
        !t.update_answer(s, requested, token).pending,
        !t.update_answer(s, requested, token).refused,
        t.update_answer(s, requested, token).blocked is None,
    ensures
        forall|m: Mode| t.monitors[s].target_modes.contains(m) <==> requested.contains(m),
        t.update_answer(s, requested, token).queued is None,
        t.after_update(s, requested, token) == t,
{
    let described = t.monitors[s].modes;
    lemma_accounting(described, requested);
    law_targets_within_supported(described, requested);
    assert forall|m: Mode| t.monitors[s].target_modes.contains(m) <==> requested.contains(m) by {
        if requested.contains(m) {
            let i = choose|i: int| 0 <= i < requested.len() && requested[i] == m;
            assert(described.contains(requested[i]));
        }
    }
}

/// A queued list that the operating system took is what the monitor publishes, and
/// asking for it again finds it in force: nothing pending, nothing queued.
pub proof fn law_applied_update_is_in_force(
    t: TableModel,
    s: u64,
    requested: Seq<Mode>,
    token: u64,
    later_token: u64,
)
    requires
        t.wf(),
        t.next_update_seq < u64::MAX,
        t.monitors.dom().contains(s),
        t.update_answer(s, requested, token).queued is Some,
    ensures
        ({
            let a = t.update_answer(s, requested, token);
            let n = t.after_update(s, requested, token);
            let f = n.after_settle(s, a.queued->0, ModeUpdateResult::Applied, a.targets);
            let again = f.update_answer(s, requested, later_token);
            &&& n.settle_outcome(s, a.queued->0, ModeUpdateResult::Applied, a.targets)
                == SettleOutcome::Settled
            &&& f.monitors[s].target_modes == selected_targets(t.monitors[s].modes, requested)
            &&& f.monitors[s].pending is None
            &&& !again.pending
            &&& again.queued is None
            &&& again.blocked is None
            &&& !again.refused
            &&& f.after_update(s, requested, later_token) == f
        }),
{
}

/// A list that was not applied leaves the published one alone, and the identical
/// request pushes again, under a new number.
pub proof fn law_retry_after_failure_pushes_again(
    t: TableModel,
    s: u64,
    requested: Seq<Mode>,
    token: u64,
)
    requires
        t.wf(),
        t.next_update_seq < u64::MAX,
        t.monitors.dom().contains(s),
        t.monitors[s].pending is None,
        t.update_answer(s, requested, token).queued is Some,
    ensures
        ({
            let a = t.update_answer(s, requested, token);
            let n = t.after_update(s, requested, token);
            let f = n.after_settle(s, a.queued->0, ModeUpdateResult::NotApplied, a.targets);
            let again = f.update_answer(s, requested, token);
            &&& f.monitors[s].target_modes == t.monitors[s].target_modes
            &&& f.monitors[s].last_error == err::UPDATE_FAILED
            &&& again.queued is Some
            &&& again.queued != a.queued
            &&& again.pending
            &&& again.targets == a.targets
        }),
{
}

/// A list refused because of the committed mode is answered, not pushed again, for
/// as long as nothing is committed; once something is, it is pushed again.
pub proof fn law_committed_refusal_is_answered(
    t: TableModel,
    s: u64,
    requested: Seq<Mode>,
    token: u64,
    superset_idx: u32,
    later_token: u64,
)
    requires
        t.wf(),
        t.next_update_seq < u64::MAX,
        t.monitors.dom().contains(s),
        t.monitors[s].pending is None,
        t.update_answer(s, requested, token).queued is Some,
    ensures
        ({
            let a = t.update_answer(s, requested, token);
            let n = t.after_update(s, requested, token);
            let f = n.after_settle(
                s,
                a.queued->0,
                ModeUpdateResult::Blocked { superset_idx, token: later_token },
                a.targets,
            );
            let again = f.update_answer(s, requested, later_token);
            &&& f.monitors[s].target_modes == t.monitors[s].target_modes
            &&& f.monitors[s].last_error == err::MODE_COMMITTED
            &&& again.blocked == Some(superset_idx)
            &&& again.queued is None
            &&& !again.pending
            &&& again.targets == t.monitors[s].target_modes
            &&& f.after_update(s, requested, later_token) == f
            &&& forall|moved: u64|
                moved != later_token ==> (#[trigger] f.update_answer(s, requested, moved)).queued is Some
        }),
{
}

/// While one update is on its way a second one replaces it. When the operating
/// system takes the first after all, the table records that, so that going back to
/// the list before both is a real change and is pushed.
pub proof fn law_rescind_after_superseded_success(
    t: TableModel,
    s: u64,
    first: Seq<Mode>,
    second: Seq<Mode>,
    back: Seq<Mode>,
    token: u64,
)
    requires
        t.wf(),
        t.next_update_seq < u64::MAX - 2,
        t.monitors.dom().contains(s),
        t.monitors[s].pending is None,
        t.monitors[s].refusal is None,
        t.update_answer(s, first, token).queued is Some,
        t.after_update(s, first, token).update_answer(s, second, token).queued is Some,
        selected_targets(t.monitors[s].modes, back) == t.monitors[s].target_modes,
    ensures
        ({
            let a = t.update_answer(s, first, token);
            let t1 = t.after_update(s, first, token);
            let b = t1.update_answer(s, second, token);
            let t2 = t1.after_update(s, second, token);
            let t3 = t2.after_settle(s, a.queued->0, ModeUpdateResult::Applied, a.targets);
            let t4 = t3.after_settle(s, b.queued->0, ModeUpdateResult::NotApplied, b.targets);
            &&& t2.settle_outcome(s, a.queued->0, ModeUpdateResult::Applied, a.targets)
                == SettleOutcome::SupersededCommitted
            &&& t3.monitors[s].target_modes == a.targets
            &&& t3.monitors[s].pending == t2.monitors[s].pending
            &&& t4.monitors[s].target_modes == a.targets
            &&& t4.update_answer(s, back, token).queued is Some
            &&& t4.update_answer(s, back, token).pending
        }),
{
    let m = t.monitors[s];
    assert(t.monitor_ok(s));
    let a = t.update_answer(s, first, token);
    crate::modes::law_targets_within_supported(m.modes, first);
    assert(publishable(m.modes, a.targets)) by {
        assert forall|i: int| 0 <= i < a.targets.len() implies m.modes.contains(
            #[trigger] a.targets[i],
        ) by {
            assert(a.targets.contains(a.targets[i]));
        }
    }
}

/// A report on an update of an earlier monitor says nothing about the monitor that
/// has the session id now.
pub proof fn law_reused_session_ignores_old_reports(
    t: TableModel,
    now_ms: u64,
    req: CreateMonitorRequest,
    drv_caps: u32,
    adapters: Seq<AdapterInfo>,
    preferred: u64,
    old_seq: u64,
    result: ModeUpdateResult,
    targets: Seq<Mode>,
    requested: Seq<Mode>,
    token: u64,
)
    requires
        t.wf(),
        t.next_update_seq < u64::MAX,
        t.create_refusal(req, drv_caps, adapters, preferred) is None,
        old_seq < t.next_update_seq,
    ensures
        ({
            let n = t.after_create(now_ms, req, drv_caps, adapters, preferred);
            let u = n.after_update(req.session_id, requested, token);
            &&& n.after_settle(req.session_id, old_seq, result, targets) == n
            &&& u.after_settle(req.session_id, old_seq, result, targets) == u
        }),
{
}

/// A report changes neither what any monitor describes nor any other session.
pub proof fn law_settle_touches_one_monitor(
    t: TableModel,
    s: u64,
    seq: u64,
    result: ModeUpdateResult,
    targets: Seq<Mode>,
    o: u64,
)
    requires
        t.wf(),
    ensures
        ({
            let n = t.after_settle(s, seq, result, targets);
            &&& n.monitors.dom() == t.monitors.dom()
            &&& n.monitors[s].modes == t.monitors[s].modes
            &&& o != s ==> n.monitors[o] == t.monitors[o]
            &&& n.connectors == t.connectors
        }),
{
    assert(t.after_settle(s, seq, result, targets).monitors.dom() =~= t.monitors.dom());
}

/// An accepted request becomes the monitor that was asked for: every field of the
/// request arrives under its own name, the modes are those of the request in its order
/// and are all published, and the rest is how a monitor starts out.
pub proof fn law_created_monitor_is_as_asked(
    t: TableModel,
    now_ms: u64,
    req: CreateMonitorRequest,
    drv_caps: u32,
    adapters: Seq<AdapterInfo>,
    preferred: u64,
)
    requires
        t.wf(),
        t.create_refusal(req, drv_caps, adapters, preferred) is None,
    ensures
        ({
            let n = t.after_create(now_ms, req, drv_caps, adapters, preferred);
            let m = n.monitors[req.session_id];
            &&& m.session_id == req.session_id
            &&& m.physical_width_mm == req.physical_width_mm
            &&& m.physical_height_mm == req.physical_height_mm
            &&& m.friendly_name == req.friendly_name
            &&& m.flags == req.flags
            &&& m.max_nits == req.max_nits
            &&& m.modes.len() == req.mode_count
            &&& forall|i: int|
                0 <= i < req.mode_count ==> {
                    &&& (#[trigger] m.modes[i]).width == req.modes@[i].width
                    &&& m.modes[i].height == req.modes@[i].height
                    &&& m.modes[i].refresh_millihz == req.modes@[i].refresh_millihz
                    &&& m.modes[i].bit_depth.raw() == req.bit_depth
                    &&& m.modes[i].hdr == (req.hdr == 1)
                }
            &&& m.target_modes == m.modes
            &&& m.pending is None
            &&& m.refusal is None
            &&& m.update_floor == t.next_update_seq
            &&& m.created_ms == now_ms
            &&& m.last_ping_ms == now_ms
            &&& m.ring_generation == 1
            &&& m.ring_state == 1
            &&& m.latest_sequence == 0
            &&& m.frames_published == 0
            &&& m.frames_dropped == 0
            &&& m.last_error == 0
            &&& n.max_monitors == t.max_monitors
            &&& n.watchdog_secs == t.watchdog_secs
            &&& n.next_update_seq == t.next_update_seq
        }),
{
    crate::modes::law_mode_list_acceptance_is_exact(
        req.modes@,
        req.mode_count,
        req.bit_depth,
        req.hdr,
        drv_caps,
    );
}

/// The identity of a created monitor, in numbers. A request that names an identity and
/// does not ask for a throwaway one keeps it; any other gets one that is made of its
/// session. Serial and product code follow from the identity unless a serial was given,
/// and the connector is the one that is reserved for the identity from then on.
#[verifier::rlimit(80)]
#[verifier::spinoff_prover]
pub proof fn law_created_identity(
    t: TableModel,
    now_ms: u64,
    req: CreateMonitorRequest,
    drv_caps: u32,
    adapters: Seq<AdapterInfo>,
    preferred: u64,
)
    requires
        t.wf(),
        t.create_refusal(req, drv_caps, adapters, preferred) is None,
    ensures
        ({
            let n = t.after_create(now_ms, req, drv_caps, adapters, preferred);
            let m = n.monitors[req.session_id];
            let throwaway = req.display_id == 0 || req.flags & 2 != 0;
            let id = m.display_id;
            &&& m.ephemeral_identity == throwaway
            &&& !throwaway ==> id == req.display_id
            &&& throwaway ==> id == 0xE000_0000_0000_0000 + req.session_id % 0x1000_0000_0000_0000
            &&& req.edid_serial != 0 ==> m.edid_serial == req.edid_serial && !m.derived_serial
            &&& req.edid_serial == 0 ==> m.derived_serial && m.edid_serial == ((id % 0x1_0000_0000)
                as u32) ^ ((id / 0x1_0000_0000) as u32)
            &&& m.product_code == (if 0x7000_0000_0000_0000 <= id < 0x8000_0000_0000_0000 {
                (0x4000 + id % 0x1_0000) % 0x1_0000
            } else {
                (0x5000 + m.connector_index % 0x1_0000) % 0x1_0000
            })
            &&& n.connectors.reservations.dom().contains(id)
            &&& n.connectors.reservations[id].connector == m.connector_index
            &&& m.connector_index < t.max_monitors
            &&& forall|s: u64| #[trigger]
                t.monitors.dom().contains(s) ==> t.monitors[s].display_id != id
                    && t.monitors[s].connector_index != m.connector_index
        }),
{
    let live = t.live_identities();
    let id = identity_of(req);
    let m = t.new_monitor(now_ms, req, drv_caps, adapters, preferred);
    lemma_connector_available(t, id);
    crate::identity::law_identity_values(0, req.session_id, id);
    crate::identity::law_serial_folds_both_halves(id, 0);
    assert(id % 0x1_0000_0000 % 0x1_0000 == id % 0x1_0000);
    if !t.connectors.reservations.dom().contains(id) {
        if t.connectors.any_free() {
            let c = choose|c: u32| c < t.connectors.max_connectors && !t.connectors.taken(c);
            crate::identity::lemma_lowest_free_exists(t.connectors, c);
        } else {
            crate::identity::lemma_victim_exists(t.connectors, live);
            assert(t.connectors.is_victim(t.connectors.victim(live), live));
        }
    }
    assert forall|s: u64| #[trigger] t.monitors.dom().contains(s) implies t.monitors[s].display_id
        != id && t.monitors[s].connector_index != m.connector_index by {
        assert(t.monitor_ok(s));
        let d = t.monitors[s].display_id;
        assert(live.contains(d));
        let x = t.connectors.reservations[d];
        if t.connectors.reservations.dom().contains(id) {
            let y = t.connectors.reservations[id];
            assert(x.connector != y.connector);
        } else if t.connectors.any_free() {
            assert(!t.connectors.taken(t.connectors.lowest_free()));
        } else {
            let v = t.connectors.victim(live);
            let y = t.connectors.reservations[v];
            assert(x.connector != y.connector);
        }
    }
}

/// Which adapter a created monitor renders on: the one the request names; where it names
/// none, the one the device prefers, if that is there and is not software; where that is
/// of no help either, the default.
pub proof fn law_created_adapter(
    t: TableModel,
    now_ms: u64,
    req: CreateMonitorRequest,
    drv_caps: u32,
    adapters: Seq<AdapterInfo>,
    preferred: u64,
)
    requires
        t.create_refusal(req, drv_caps, adapters, preferred) is None,
    ensures
        ({
            let luid = t.after_create(
                now_ms,
                req,
                drv_caps,
                adapters,
                preferred,
            ).monitors[req.session_id].adapter_luid;
            let usable = preferred != 0 && exists|i: int|
                0 <= i < adapters.len() && (#[trigger] adapters[i]).luid == preferred
                    && !adapters[i].software;
            &&& req.adapter_luid != 0 ==> luid == req.adapter_luid
            &&& req.adapter_luid == 0 && usable ==> luid == preferred
            &&& req.adapter_luid == 0 && !usable ==> exists|i: int|
                0 <= i < adapters.len() && (#[trigger] adapters[i]).luid == luid
                    && !adapters[i].software && forall|j: int|
                    0 <= j < adapters.len() && !(#[trigger] adapters[j]).software
                        ==> adapters[j].vram_bytes < adapters[i].vram_bytes || (
                    adapters[j].vram_bytes == adapters[i].vram_bytes && luid <= adapters[j].luid)
        }),
{
    crate::adapter::law_adapter_choice(adapters, req.adapter_luid);
    crate::adapter::law_adapter_choice(adapters, preferred);
    crate::adapter::law_adapter_choice(adapters, 0);
}

/// When a create request succeeds, and why it fails otherwise: the first of these that
/// applies is the answer.
pub proof fn law_create_acceptance_is_exact(
    t: TableModel,
    req: CreateMonitorRequest,
    drv_caps: u32,
    adapters: Seq<AdapterInfo>,
    preferred: u64,
)
    ensures
        ({
            let r = t.create_refusal(req, drv_caps, adapters, preferred);
            let id = if req.display_id == 0 || req.flags & 2 != 0 {
                (0xE000_0000_0000_0000 + req.session_id % 0x1000_0000_0000_0000) as u64
            } else {
                req.display_id
            };
            let known = t.monitors.dom().contains(req.session_id);
            let room = t.monitors.dom().len() < t.max_monitors;
            let in_use = exists|s: u64| #[trigger]
                t.monitors.dom().contains(s) && t.monitors[s].display_id == id;
            let modes = mode_list_of(req.modes@, req.mode_count, req.bit_depth, req.hdr, drv_caps);
            let named = exists|i: int|
                0 <= i < adapters.len() && (#[trigger] adapters[i]).luid == req.adapter_luid
                    && !adapters[i].software;
            let any = exists|i: int| 0 <= i < adapters.len() && !(#[trigger] adapters[i]).software;
            let adapter = if req.adapter_luid != 0 {
                named
            } else {
                any
            };
            &&& req.session_id == 0 ==> r == Some(CoreError::BadMode)
            &&& req.session_id != 0 && known ==> r == Some(CoreError::DuplicateSession)
            &&& req.session_id != 0 && !known && !room ==> r == Some(CoreError::MaxMonitors)
            &&& req.session_id != 0 && !known && room && in_use ==> r == Some(
                CoreError::IdentityInUse,
            )
            &&& req.session_id != 0 && !known && room && !in_use ==> {
                &&& modes matches Err(e) ==> r == Some(e)
                &&& modes is Ok && !adapter ==> r == Some(CoreError::NoAdapter)
                &&& modes is Ok && adapter ==> r is None
            }
        }),
{
    crate::identity::law_identity_values(0, req.session_id, 0);
    crate::adapter::law_adapter_choice(adapters, req.adapter_luid);
    crate::adapter::law_adapter_choice(adapters, preferred);
    crate::adapter::law_adapter_choice(adapters, 0);
    let id = identity_of(req);
    if t.live_identities().contains(id) {
        let s = choose|s: u64| #[trigger]
            t.monitors.dom().contains(s) && t.monitors[s].display_id == id;
        assert(t.monitors.dom().contains(s));
    }
    if preferred != 0 && crate::adapter::selected_adapter(adapters, preferred) is Ok {
        let i = choose|i: int|
            0 <= i < adapters.len() && (#[trigger] adapters[i]).luid == preferred
                && !adapters[i].software;
        assert(!adapters[i].software);
    }
}

/// Lease timeouts in numbers: from three seconds to five minutes for a request that names
/// one, the watchdog time but at least ten seconds for one that does not, and never where
/// either says so.
pub proof fn law_lease_timeout_values(requested_ms: u32, watchdog_secs: u32)
    ensures
        ({
            let r = lease_timeout(requested_ms, watchdog_secs);
            &&& requested_ms == 0xFFFF_FFFF ==> r == 0xFFFF_FFFF
            &&& 1 <= requested_ms < 3_000 ==> r == 3_000
            &&& 3_000 <= requested_ms <= 300_000 ==> r == requested_ms
            &&& 300_000 < requested_ms < 0xFFFF_FFFF ==> r == 300_000
            &&& requested_ms == 0 && watchdog_secs == 0 ==> r == 0xFFFF_FFFF
            &&& requested_ms == 0 && 1 <= watchdog_secs <= 10 ==> r == 10_000
            &&& requested_ms == 0 && 10 < watchdog_secs <= 300 ==> r == 1_000 * watchdog_secs
            &&& requested_ms == 0 && watchdog_secs > 300 ==> r == 300_000
        }),
{
}

/// The lease of a created monitor runs from its creation, for the time it was given; each
/// ping starts it anew, and every millisecond takes one off.
pub proof fn law_lease_runs_down(
    t: TableModel,
    now_ms: u64,
    req: CreateMonitorRequest,
    drv_caps: u32,
    adapters: Seq<AdapterInfo>,
    preferred: u64,
    ping_ms: u64,
    elapsed: u64,
)
    requires
        t.create_refusal(req, drv_caps, adapters, preferred) is None,
        now_ms + elapsed <= u64::MAX,
        ping_ms + elapsed <= u64::MAX,
    ensures
        ({
            let s = req.session_id;
            let n = t.after_create(now_ms, req, drv_caps, adapters, preferred);
            let p = n.pinged(ping_ms, s);
            let given = lease_timeout(req.lease_timeout_ms, t.watchdog_secs);
            let left = if given == 0xFFFF_FFFF {
                0xFFFF_FFFF
            } else if elapsed < given {
                given - elapsed
            } else {
                0
            };
            let over = given != 0xFFFF_FFFF && elapsed > given;
            &&& n.monitors[s].lease_timeout_ms == given
            &&& n.monitors[s].lease_remaining((now_ms + elapsed) as u64) == left
            &&& n.monitors[s].expired((now_ms + elapsed) as u64) == over
            &&& p.monitors[s].lease_remaining((ping_ms + elapsed) as u64) == left
            &&& p.monitors[s].expired((ping_ms + elapsed) as u64) == over
            &&& n.lease((now_ms + elapsed) as u64, s) == Ok::<(u64, u32, u32), CoreError>(
                (n.monitors[s].display_id, n.monitors[s].connector_index, left as u32),
            )
        }),
{
}

/// A ping changes the time of the last ping and nothing else, anywhere; one for a session
/// that does not exist changes nothing, and such a session has no lease to ask about.
pub proof fn law_ping_changes_one_field(t: TableModel, now_ms: u64, s: u64)
    ensures
        ({
            let n = t.pinged(now_ms, s);
            &&& n.monitors.dom() == t.monitors.dom()
            &&& t.monitors.dom().contains(s) ==> {
                &&& n.monitors[s].last_ping_ms == now_ms
                &&& (MonitorModel {
                    last_ping_ms: t.monitors[s].last_ping_ms,
                    ..n.monitors[s]
                }) == t.monitors[s]
            }
            &&& !t.monitors.dom().contains(s) ==> n == t && t.lease(now_ms, s) == Err::<
                (u64, u32, u32),
                CoreError,
            >(CoreError::NoSuchSession)
            &&& n.connectors == t.connectors
            &&& n.next_update_seq == t.next_update_seq
            &&& n.max_monitors == t.max_monitors
            &&& n.watchdog_secs == t.watchdog_secs
        }),
{
    assert(t.pinged(now_ms, s).monitors.dom() =~= t.monitors.dom());
}

/// A status entry shows its monitor: identity, adapter, counters and times under their
/// own names, and the first mode the monitor describes.
pub proof fn law_status_entry_shows_the_monitor(m: MonitorModel)
    ensures
        ({
            let e = m.status();
            &&& e.session_id == m.session_id
            &&& e.display_id == m.display_id
            &&& e.adapter_luid == m.adapter_luid
            &&& e.latest_sequence == m.latest_sequence
            &&& e.frames_published == m.frames_published
            &&& e.frames_dropped == m.frames_dropped
            &&& e.last_ping_ms == m.last_ping_ms
            &&& e.width == m.modes[0].width
            &&& e.height == m.modes[0].height
            &&& e.refresh_millihz == m.modes[0].refresh_millihz
            &&& m.modes[0].bit_depth is Sdr8 <==> e.bit_depth == 8
            &&& m.modes[0].bit_depth is Sdr10 <==> e.bit_depth == 10
            &&& m.modes[0].bit_depth is Hdr10 <==> e.bit_depth == 110
            &&& m.modes[0].bit_depth is Hdr12 <==> e.bit_depth == 112
            &&& e.hdr == (if m.modes[0].hdr {
                1int
            } else {
                0
            })
            &&& e.ring_generation == m.ring_generation
            &&& e.ring_state == m.ring_state
            &&& e.last_error == m.last_error
            &&& e.connector_index == m.connector_index
            &&& e.lease_timeout_ms == m.lease_timeout_ms
        }),
{
}

/// A status query shows each live monitor once, in ascending order of session, and zeros
/// after the last.
pub proof fn law_status_shows_every_monitor(t: TableModel, s: u64, i: int, j: int)
    requires
        t.wf(),
    ensures
        ({
            let e = t.status_entries();
            let n = t.monitors.dom().len();
            &&& e.len() == 16
            &&& n <= 16
            &&& t.monitors.dom().contains(s) ==> exists|k: int|
                0 <= k < n && #[trigger] e[k] == t.monitors[s].status()
            &&& 0 <= i < n ==> t.monitors.dom().contains(e[i].session_id) && e[i]
                == t.monitors[e[i].session_id].status()
            &&& 0 <= i < j < n ==> e[i].session_id < e[j].session_id
            &&& n <= i < 16 ==> e[i].session_id == 0 && e[i].display_id == 0 && e[i].adapter_luid == 0
                && e[i].latest_sequence == 0 && e[i].frames_published == 0 && e[i].frames_dropped
                == 0 && e[i].last_ping_ms == 0 && e[i].width == 0 && e[i].height == 0
                && e[i].refresh_millihz == 0 && e[i].bit_depth == 0 && e[i].hdr == 0
                && e[i].ring_generation == 0 && e[i].ring_state == 0 && e[i].last_error == 0
                && e[i].connector_index == 0 && e[i].lease_timeout_ms == 0
        }),
{
    let ids = crate::idmap::sorted_ids(t.monitors.dom());
    let e = t.status_entries();
    crate::idmap::lemma_sorted_exists(t.monitors.dom());
    assert(ids.no_duplicates());
    ids.unique_seq_to_set();
    assert(ids.len() == t.monitors.dom().len());
    assert forall|k: int| 0 <= k < ids.len() implies t.monitors.dom().contains(#[trigger] ids[k])
        && e[k] == t.monitors[ids[k]].status() && e[k].session_id == ids[k] by {
        assert(ids.to_set().contains(ids[k]));
        assert(t.monitor_ok(ids[k]));
    }
    if t.monitors.dom().contains(s) {
        assert(ids.to_set().contains(s));
        let k = ids.index_of(s);
        assert(e[k] == t.monitors[ids[k]].status());
    }
    if 0 <= i < ids.len() {
        assert(e[i] == t.monitors[ids[i]].status());
    }
    if 0 <= j < ids.len() {
        assert(e[j] == t.monitors[ids[j]].status());
    }
}

/// What a mode update answers and does, told by what was asked for and what the monitor
/// is about. Asking for nothing the monitor describes is refused; asking for what it is
/// about to publish, or publishes with nothing on its way, changes nothing; asking again
/// for what was turned down for good gets the mode that stands in the way; everything
/// else is queued under the next number.
pub proof fn law_update_cases(t: TableModel, s: u64, requested: Seq<Mode>, token: u64)
    requires
        t.wf(),
        t.monitors.dom().contains(s),
        t.next_update_seq < u64::MAX,
    ensures
        ({
            let m = t.monitors[s];
            let a = t.update_answer(s, requested, token);
            let n = t.after_update(s, requested, token);
            let chosen = selected_targets(m.modes, requested);
            let none = forall|i: int|
                0 <= i < requested.len() ==> !m.modes.contains(#[trigger] requested[i]);
            let coming = if m.pending is Some {
                m.pending->0.targets
            } else {
                m.target_modes
            };
            let barred = m.refusal is Some && m.refusal->0.targets == chosen && m.refusal->0.token
                == token;
            &&& a.refused <==> none
            &&& none ==> a.targets == m.target_modes && a.blocked is None && a.queued is None
            &&& !none && chosen == coming ==> a.targets == chosen && a.pending == (m.pending is Some)
                && a.blocked is None && a.queued is None
            &&& !none && chosen != coming && barred ==> a.targets == m.target_modes && a.pending == (
            m.pending is Some) && a.blocked == Some(m.refusal->0.superset_idx) && a.queued is None
            &&& !none && chosen != coming && !barred ==> {
                &&& a.targets == chosen
                &&& a.pending
                &&& a.blocked is None
                &&& a.queued == Some(t.next_update_seq)
                &&& n.next_update_seq == t.next_update_seq + 1
                &&& n.monitors[s].pending is Some
                &&& n.monitors[s].pending->0.seq == t.next_update_seq
                &&& n.monitors[s].pending->0.targets == chosen
                &&& (MonitorModel { pending: m.pending, ..n.monitors[s] }) == m
            }
            &&& a.queued is None ==> n == t
            &&& n.connectors == t.connectors
            &&& n.max_monitors == t.max_monitors
            &&& n.watchdog_secs == t.watchdog_secs
        }),
{
    let m = t.monitors[s];
    let chosen = selected_targets(m.modes, requested);
    law_targets_within_supported(m.modes, requested);
    if chosen.len() == 0 {
        assert forall|i: int| 0 <= i < requested.len() implies !m.modes.contains(
            #[trigger] requested[i],
        ) by {
            if m.modes.contains(requested[i]) {
                assert(requested.contains(requested[i]));
                assert(chosen.contains(requested[i]));
            }
        }
    } else {
        assert(chosen.contains(chosen[0]));
        let i = requested.index_of(chosen[0]);
        assert(m.modes.contains(requested[i]));
    }
}

/// What a report on an update does. On the update that is outstanding it decides: taken,
/// the list is published; not taken, the monitor keeps what it published and says why in
/// its last error, and a refusal for good is remembered with the list it was about. On an
/// earlier one it counts only if the list was taken, can be published and is newer than
/// what is settled already. Everything else is stale.
pub proof fn law_settle_cases(
    t: TableModel,
    s: u64,
    seq: u64,
    result: ModeUpdateResult,
    targets: Seq<Mode>,
)
    requires
        t.wf(),
    ensures
        ({
            let m = t.monitors[s];
            let live = t.monitors.dom().contains(s) && m.pending is Some;
            let n = t.after_settle(s, seq, result, targets);
            let k = n.monitors[s];
            let o = t.settle_outcome(s, seq, result, targets);
            let held = targets.len() > 0 && forall|i: int|
                0 <= i < targets.len() ==> m.modes.contains(#[trigger] targets[i]);
            let overtaken = live && result is Applied && seq < m.pending->0.seq && seq
                >= m.update_floor && held;
            &&& o is Settled <==> live && m.pending->0.seq == seq
            &&& o is SupersededCommitted <==> overtaken
            &&& o is Stale ==> n == t
            &&& o is Settled ==> {
                let list = m.pending->0.targets;
                &&& k.pending is None
                &&& k.update_floor == seq + 1
                &&& k.target_modes == (if result is Applied {
                    list
                } else {
                    m.target_modes
                })
                &&& k.last_error == (match result {
                    ModeUpdateResult::Applied => m.last_error as int,
                    ModeUpdateResult::NotApplied => -13,
                    ModeUpdateResult::Blocked { superset_idx, token } => -14,
                })
                &&& match result {
                    ModeUpdateResult::Blocked { superset_idx, token } => {
                        &&& k.refusal is Some
                        &&& k.refusal->0.targets == list
                        &&& k.refusal->0.superset_idx == superset_idx
                        &&& k.refusal->0.token == token
                    },
                    _ => k.refusal == m.refusal,
                }
                &&& (MonitorModel {
                    pending: m.pending,
                    update_floor: m.update_floor,
                    target_modes: m.target_modes,
                    last_error: m.last_error,
                    refusal: m.refusal,
                    ..k
                }) == m
            }
            &&& o is SupersededCommitted ==> {
                &&& k.target_modes == targets
                &&& k.update_floor == seq + 1
                &&& (MonitorModel {
                    update_floor: m.update_floor,
                    target_modes: m.target_modes,
                    ..k
                }) == m
            }
            &&& n.next_update_seq == t.next_update_seq
            &&& n.connectors == t.connectors
            &&& n.max_monitors == t.max_monitors
        }),
{
    if t.monitors.dom().contains(s) {
        assert(t.monitor_ok(s));
    }
}

/// A mode update asks in the depth and dynamic range that the monitor has; one to four
/// modes can be asked for.
pub proof fn law_update_keeps_the_depth(t: TableModel, s: u64, specs: Seq<ModeSpec>, drv_caps: u32)
    ensures
        ({
            let r = t.requested_modes(s, specs, drv_caps);
            let p = t.monitors[s].modes[0];
            &&& !t.monitors.dom().contains(s) ==> r == Err::<Seq<Mode>, CoreError>(
                CoreError::NoSuchSession,
            )
            &&& t.monitors.dom().contains(s) && !(1 <= specs.len() <= 4) ==> r == Err::<
                Seq<Mode>,
                CoreError,
            >(CoreError::BadMode)
            &&& t.monitors.dom().contains(s) && 1 <= specs.len() <= 4 ==> r == mode_list_of(
                specs,
                specs.len() as u32,
                p.bit_depth.raw(),
                if p.hdr {
                    1
                } else {
                    0
                },
                drv_caps,
            )
            &&& r matches Ok(v) ==> v.len() == specs.len() && forall|i: int|
                0 <= i < v.len() ==> {
                    &&& (#[trigger] v[i]).width == specs[i].width
                    &&& v[i].height == specs[i].height
                    &&& v[i].refresh_millihz == specs[i].refresh_millihz
                    &&& v[i].bit_depth == p.bit_depth
                    &&& v[i].hdr == p.hdr
                }
        }),
{
    let p = t.monitors[s].modes[0];
    if t.monitors.dom().contains(s) && 1 <= specs.len() <= 4 {
        assert(specs.take(specs.len() as int) =~= specs);
        let hdr: u32 = if p.hdr {
            1
        } else {
            0
        };
        crate::modes::law_mode_list_acceptance_is_exact(
            specs,
            specs.len() as u32,
            p.bit_depth.raw(),
            hdr,
            drv_caps,
        );
        crate::proto::law_bit_depth_round_trip(p.bit_depth);
        let r = t.requested_modes(s, specs, drv_caps);
        if r is Ok {
            assert forall|i: int| 0 <= i < r->Ok_0.len() implies (#[trigger] r->Ok_0[i]).bit_depth
                == p.bit_depth by {
                crate::proto::law_bit_depth_round_trip(r->Ok_0[i].bit_depth);
            }
        }
    }
}

/// A host cannot name an identity that starts with a 7, a 14 or a 15.
pub proof fn law_reserved_identity_values(display_id: u64)
    ensures
        reserved_identity(display_id) <==> display_id >= 0xE000_0000_0000_0000
            || 0x7000_0000_0000_0000 <= display_id < 0x8000_0000_0000_0000,
{
    crate::identity::law_identity_values(0, 0, display_id);
}

} // verus!
