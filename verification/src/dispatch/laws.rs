//! What holds of the control plane across requests.
use vstd::prelude::*;

use crate::adapter::AdapterInfo;
use crate::dispatch::model::{create_request_in, no_pool, plug_of, status_wire, DeviceModel, EffectModel};
use crate::dispatch::{DriverConfig, Status};
use crate::edid::{law_blocks_sum_to_zero, EdidModel};
use crate::identity::{law_permanent_ids_distinct, permanent_id, ConnectorModel};
use crate::modes::{
    in_envelope, law_mode_list_valid, law_targets_within_supported, mode_list_of, modes_of,
    selected_targets,
};
use crate::permanent::{
    indices, law_member_sessions_distinct, member_request_of, member_session, pool_valid, to_create,
    to_destroy,
};
use crate::persist::{blob_of, law_stored_state_is_read_back};
use crate::proto::wire::i32_le;
use crate::proto::{err, ioctl};
use crate::proto::{
    CreateMonitorRequest, PermanentPoolConfig, UpdateModesRequest, LEASE_TIMEOUT_DISABLED,
    MAX_MODES_PER_MONITOR,
};
use crate::session::model::{
    adapter_for, identity_of, lemma_connector_available, lemma_created_wf, publishable,
    MonitorModel, TableModel,
};

verus! {

/// A request nobody knows changes nothing and writes nothing.
pub proof fn law_unknown_code_does_nothing(
    d: DeviceModel,
    handshaken: bool,
    now_ms: u64,
    code: u32,
    input: Seq<u8>,
    room: nat,
)
    requires
        !DeviceModel::known_code(code),
    ensures
        ({
            let (status, a) = d.outcome(handshaken, now_ms, code, input, room);
            &&& status == Status::UnknownCode
            &&& a.dev == d
            &&& a.handshaken == handshaken
            &&& a.reply.len() == 0
            &&& a.effects.len() == 0
        }),
{
}

/// Nothing is left to be done, and nothing is written, unless a request succeeds.
pub proof fn law_effects_only_on_success(
    d: DeviceModel,
    handshaken: bool,
    now_ms: u64,
    code: u32,
    input: Seq<u8>,
    room: nat,
)
    ensures
        ({
            let (status, a) = d.outcome(handshaken, now_ms, code, input, room);
            &&& status != Status::Success ==> a.effects.len() == 0 && a.reply.len() == 0
            &&& a.reply.len() <= room
        }),
{
}

/// An effect that can be carried out as it stands: a monitor publishes some of what it
/// describes, within a mode's limits, and its EDID is whole; a list to publish is not
/// empty.
pub open spec fn performable(e: EffectModel) -> bool {
    match e {
        EffectModel::PlugMonitor { modes, targets, edid, .. } => {
            &&& publishable(modes, targets)
            &&& modes.len() <= MAX_MODES_PER_MONITOR
            &&& forall|i: int|
                0 <= i < targets.len() ==> in_envelope(
                    (#[trigger] targets[i]).width,
                    targets[i].height,
                    targets[i].refresh_millihz,
                )
            &&& edid.len() == 256
        },
        EffectModel::UpdateModes { targets, .. } => targets.len() > 0,
        _ => true,
    }
}

/// Whatever a request asks to be done can be done as it stands: no monitor is plugged in
/// without a mode, or with one that it does not describe, and no empty list is ever
/// published. A list to publish on a live monitor is part of what that monitor describes.
pub proof fn law_effects_are_performable(
    d: DeviceModel,
    handshaken: bool,
    now_ms: u64,
    code: u32,
    input: Seq<u8>,
    room: nat,
    i: int,
)
    requires
        d.wf(),
        0 <= i < d.outcome(handshaken, now_ms, code, input, room).1.effects.len(),
    ensures
        ({
            let e = d.outcome(handshaken, now_ms, code, input, room).1.effects[i];
            &&& performable(e)
            &&& e matches EffectModel::UpdateModes { session_id, update_seq, targets }
                ==> d.table.monitors.dom().contains(session_id) && publishable(
                d.table.monitors[session_id].modes,
                targets,
            )
        }),
{
    if code == ioctl::IOCTL_CREATE_MONITOR {
        if let Some(req) = create_request_in(input) {
            lemma_new_monitor_performable(
                d.table,
                now_ms,
                req,
                d.cfg.caps,
                d.adapters,
                d.preferred_adapter,
                d.slots(),
            );
        }
    } else if code == ioctl::IOCTL_SET_PERMANENT_POOL {
        if let Some(desired) = PermanentPoolConfig::decoded(input) {
            let gone = to_destroy(d.pool, d.pool.count, desired);
            let made = to_create(d.pool, d.pool.count, desired);
            lemma_unplugs_performable(d.table, gone);
            lemma_members_performable(
                d,
                DeviceModel::table_without_members(d.table, gone),
                now_ms,
                desired,
                made,
            );
        }
    } else if code == ioctl::IOCTL_UPDATE_MODES {
        if let Some(req) = UpdateModesRequest::decoded(input) {
            let specs = req.modes@.take(req.mode_count as int);
            if let Ok(requested) = d.table.requested_modes(req.session_id, specs, d.cfg.caps) {
                let described = d.table.monitors[req.session_id].modes;
                law_targets_within_supported(described, requested);
                let targets = selected_targets(described, requested);
                assert forall|j: int| 0 <= j < targets.len() implies described.contains(
                    #[trigger] targets[j],
                ) by {
                    assert(targets.contains(targets[j]));
                }
            }
        }
    }
}

/// The same holds of what is to be done when the stored pool is brought back.
pub proof fn law_startup_effects_are_performable(d: DeviceModel, now_ms: u64, i: int)
    requires
        d.pool_restorable(),
        0 <= i < d.pool_pending().pool_run(now_ms, d.pool).effects.len(),
    ensures
        performable(d.pool_pending().pool_run(now_ms, d.pool).effects[i]),
{
    let p = d.pool_pending();
    let gone = to_destroy(p.pool, p.pool.count, d.pool);
    let made = to_create(p.pool, p.pool.count, d.pool);
    lemma_unplugs_performable(p.table, gone);
    lemma_members_performable(
        p,
        DeviceModel::table_without_members(p.table, gone),
        now_ms,
        d.pool,
        made,
    );
}

proof fn lemma_new_monitor_performable(
    t: TableModel,
    now_ms: u64,
    req: CreateMonitorRequest,
    drv_caps: u32,
    adapters: Seq<AdapterInfo>,
    preferred: u64,
    slots: u32,
)
    requires
        t.create_refusal(req, drv_caps, adapters, preferred) is None,
    ensures
        performable(plug_of(t.new_monitor(now_ms, req, drv_caps, adapters, preferred), slots)),
{
    let m = t.new_monitor(now_ms, req, drv_caps, adapters, preferred);
    law_mode_list_valid(req.modes@, req.mode_count, req.bit_depth, req.hdr, drv_caps);
    law_blocks_sum_to_zero(
        EdidModel {
            mode: m.modes[0],
            friendly_name: m.friendly_name@,
            serial: m.edid_serial,
            product_code: m.product_code,
            physical_width_mm: m.physical_width_mm,
            physical_height_mm: m.physical_height_mm,
            max_nits: m.max_nits,
        },
    );
    assert forall|j: int| 0 <= j < m.target_modes.len() implies m.modes.contains(
        #[trigger] m.target_modes[j],
    ) by {
        assert(m.modes[j] == m.target_modes[j]);
    }
}

proof fn lemma_unplugs_performable(t: TableModel, gone: Seq<u32>)
    ensures
        forall|i: int|
            0 <= i < DeviceModel::members_unplugged(t, gone).len() ==> (
            #[trigger] DeviceModel::members_unplugged(t, gone)[i]) is UnplugMonitor,
    decreases gone.len(),
{
    if gone.len() > 0 {
        lemma_unplugs_performable(t, gone.drop_last());
    }
}

proof fn lemma_members_performable(
    d: DeviceModel,
    t: TableModel,
    now_ms: u64,
    desired: PermanentPoolConfig,
    made: Seq<u32>,
)
    ensures
        forall|i: int|
            0 <= i < d.members_created(t, now_ms, desired, made).effects.len() ==> (
            #[trigger] d.members_created(t, now_ms, desired, made).effects[i]) is PlugMonitor
                && performable(d.members_created(t, now_ms, desired, made).effects[i]),
    decreases made.len(),
{
    if made.len() > 0 {
        let before = d.members_created(t, now_ms, desired, made.drop_last());
        lemma_members_performable(d, t, now_ms, desired, made.drop_last());
        let req = member_request_of(desired, made.last());
        if before.table.create_refusal(req, d.cfg.caps, d.adapters, d.preferred_adapter) is None {
            lemma_new_monitor_performable(
                before.table,
                now_ms,
                req,
                d.cfg.caps,
                d.adapters,
                d.preferred_adapter,
                d.slots(),
            );
        }
    }
}

/// A mode update that cannot be answered leaves the device alone.
pub proof fn law_unanswerable_update_does_nothing(
    d: DeviceModel,
    handshaken: bool,
    now_ms: u64,
    input: Seq<u8>,
    room: nat,
)
    ensures
        ({
            let (status, a) = d.outcome(handshaken, now_ms, ioctl::IOCTL_UPDATE_MODES, input, room);
            status != Status::Success ==> a.dev == d
        }),
{
}

/// On a handle that has not shaken hands no request changes the device or asks for
/// anything to be done.
pub proof fn law_handshake_comes_first(
    d: DeviceModel,
    now_ms: u64,
    code: u32,
    input: Seq<u8>,
    room: nat,
)
    ensures
        ({
            let (status, a) = d.outcome(false, now_ms, code, input, room);
            &&& a.dev == d
            &&& a.effects.len() == 0
            &&& code != ioctl::IOCTL_HANDSHAKE ==> !a.handshaken
        }),
{
}

/// Session requests on such a handle are answered with that very reason.
pub proof fn law_unshaken_requests_are_told_so(d: DeviceModel, now_ms: u64, code: u32, input: Seq<u8>)
    requires
        code == ioctl::IOCTL_DESTROY_MONITOR || code == ioctl::IOCTL_PING || code
            == ioctl::IOCTL_SET_RENDER_ADAPTER || code == ioctl::IOCTL_SET_PERMANENT_POOL,
        d.answer(false, now_ms, code, input) is Some,
    ensures
        d.answer(false, now_ms, code, input)->0.reply == i32_le(err::NOT_HANDSHAKEN),
{
}

/// Diagnostics need no handshake and change nothing.
pub proof fn law_diagnostics_are_free(d: DeviceModel, handshaken: bool, now_ms: u64, input: Seq<u8>, room: nat)
    ensures
        ({
            let (status, a) = d.outcome(handshaken, now_ms, ioctl::IOCTL_GET_STATUS, input, room);
            &&& a.dev == d
            &&& a.handshaken == handshaken
            &&& status == Status::Success ==> a.reply == status_wire(
                d.table,
                now_ms,
                d.cfg.driver_build,
                d.cfg.caps,
            )
        }),
        ({
            let (status, a) = d.outcome(
                handshaken,
                now_ms,
                ioctl::IOCTL_QUERY_PERMANENT_POOL,
                input,
                room,
            );
            a.dev == d && a.handshaken == handshaken
        }),
{
}

/// A mode update never plugs, unplugs or stores anything, and a refused one asks for
/// nothing at all: the request is refused, the session is not.
pub proof fn law_update_never_disturbs_the_session(
    d: DeviceModel,
    handshaken: bool,
    req: UpdateModesRequest,
    other: u64,
)
    requires
        d.wf(),
    ensures
        ({
            let a = d.on_update_modes(handshaken, req);
            &&& a.effects.len() <= 1
            &&& forall|i: int| 0 <= i < a.effects.len() ==> (#[trigger] a.effects[i]) is UpdateModes
            &&& a.dev.table.monitors.dom() == d.table.monitors.dom()
            &&& a.dev.table.connectors == d.table.connectors
            &&& a.dev.pool == d.pool
            &&& d.table.monitors.dom().contains(req.session_id) ==> {
                let (x, y) = (
                    a.dev.table.monitors[req.session_id],
                    d.table.monitors[req.session_id],
                );
                x.modes == y.modes && x.target_modes == y.target_modes
            }
            &&& other != req.session_id ==> a.dev.table.monitors[other] == d.table.monitors[other]
        }),
{
    let a = d.on_update_modes(handshaken, req);
    assert(a.dev.table.monitors.dom() =~= d.table.monitors.dom());
}

/// A monitor that is plugged in again gets the targets it was publishing, and they
/// are some of the modes its EDID stands for.
pub proof fn law_replug_keeps_published_list(t: TableModel, s: u64, ring_slots: u32)
    requires
        t.wf(),
        t.monitors.dom().contains(s),
    ensures
        plug_of(t.monitors[s], ring_slots) matches EffectModel::PlugMonitor { modes, targets, .. }
            && targets == t.monitors[s].target_modes && targets.len() > 0 && forall|i: int|
            0 <= i < targets.len() ==> modes.contains(#[trigger] targets[i]),
{
    assert(t.monitor_ok(s));
}

/// What was stored before a restart gives every identity its connector back: a device
/// started from the blob attaches a returning identity where it was.
pub proof fn law_identity_survives_restart(
    d: DeviceModel,
    cfg: DriverConfig,
    req: CreateMonitorRequest,
    now_ms: u64,
    adapters: Seq<AdapterInfo>,
)
    requires
        d.wf(),
        cfg.max_monitors == d.cfg.max_monitors,
        d.table.connectors.reservations.dom().contains(identity_of(req)),
    ensures
        ({
            let n = DeviceModel::started(cfg, Some(blob_of(d.stored())));
            let m = n.table.new_monitor(now_ms, req, cfg.caps, adapters, 0);
            &&& m.connector_index == d.table.connectors.reservations[identity_of(req)].connector
            &&& n.pool == (if d.pool.count > 0 {
                d.pool
            } else {
                no_pool()
            })
        }),
{
    let id = identity_of(req);
    crate::identity::law_reservations_fit_connectors(d.table.connectors);
    law_stored_state_is_read_back(d.stored(), Seq::empty());
    crate::identity::law_restored_listing_is_the_same(d.table.connectors, id);
}

/// A pool member is created as long as its session and identity are free, the cap is
/// not reached and some adapter can render.
proof fn lemma_member_accepted(
    d: DeviceModel,
    t: TableModel,
    desired: PermanentPoolConfig,
    index: u32,
)
    requires
        t.wf(),
        desired.count > 0,
        pool_valid(desired, d.cfg.caps, d.cap()),
        adapter_for(d.adapters, 0, d.preferred_adapter) is Ok,
        !t.monitors.dom().contains(member_session(index)),
        !t.live_identities().contains(permanent_id(index)),
        t.monitors.dom().len() < t.max_monitors,
    ensures
        t.create_refusal(
            member_request_of(desired, index),
            d.cfg.caps,
            d.adapters,
            d.preferred_adapter,
        ) is None,
        identity_of(member_request_of(desired, index)) == permanent_id(index),
{
    let req = member_request_of(desired, index);
    law_member_sessions_distinct(index, index);
    assert(0u32 & 2u32 == 0) by (bit_vector);
    assert((0x7000_0000_0000_0000u64 | index as u64) != 0) by (bit_vector);
    let one = req.modes@.take(1);
    assert(one.drop_last() =~= Seq::empty());
    assert(one.last() == req.modes@[0]);
    assert(modes_of(one.drop_last(), desired.bit_depth, desired.hdr, d.cfg.caps) == Ok::<
        Seq<crate::modes::Mode>,
        crate::error::CoreError,
    >(Seq::empty()));
    assert(mode_list_of(req.modes@, 1, desired.bit_depth, desired.hdr, d.cfg.caps) is Ok);
}

/// Creating members `0..k` of a pool in a table without monitors.
proof fn lemma_members_all_created(
    d: DeviceModel,
    t: TableModel,
    now_ms: u64,
    desired: PermanentPoolConfig,
    k: u32,
)
    requires
        t.wf(),
        t.max_monitors == d.cap(),
        t.monitors.dom().len() == 0,
        t.connectors.next_age < u64::MAX - 8,
        desired.count > 0,
        pool_valid(desired, d.cfg.caps, d.cap()),
        adapter_for(d.adapters, 0, d.preferred_adapter) is Ok,
        k <= desired.count,
    ensures
        ({
            let run = d.members_created(t, now_ms, desired, indices(0, k));
            &&& run.result == err::OK
            &&& run.created == k
            &&& run.effects.len() == k
            &&& run.table.wf()
            &&& run.table.max_monitors == t.max_monitors
            &&& run.table.next_update_seq == t.next_update_seq
            &&& run.table.connectors.next_age <= t.connectors.next_age + k
            &&& run.table.monitors.dom().len() == k
            &&& forall|s: u64| #[trigger]
                run.table.monitors.dom().contains(s) <==> exists|i: u32| i < k && s == member_session(i)
            &&& forall|i: u32|
                i < k ==> run.table.monitors[#[trigger] member_session(i)].display_id
                    == permanent_id(i) && run.table.monitors[member_session(i)].lease_timeout_ms
                    == LEASE_TIMEOUT_DISABLED
        }),
    decreases k,
{
    if k == 0 {
        assert(indices(0, 0) =~= Seq::<u32>::empty());
        assert forall|s: u64| !(#[trigger] t.monitors.dom().contains(s)) by {
            if t.monitors.dom().contains(s) {
                assert(t.monitors.dom().len() > 0) by {
                    vstd::set_lib::lemma_len_subset(set![s], t.monitors.dom());
                    assert(set![s].len() == 1);
                }
            }
        }
    } else {
        let j = (k - 1) as u32;
        lemma_members_all_created(d, t, now_ms, desired, j);
        assert(indices(0, k).drop_last() =~= indices(0, j));
        assert(indices(0, k).last() == j);
        let before = d.members_created(t, now_ms, desired, indices(0, j));
        let req = member_request_of(desired, j);
        let bt = before.table;
        if bt.monitors.dom().contains(member_session(j)) {
            let i = choose|i: u32| i < j && member_session(j) == member_session(i);
            law_member_sessions_distinct(i, j);
        }
        if bt.live_identities().contains(permanent_id(j)) {
            let s = choose|s: u64| #[trigger]
                bt.monitors.dom().contains(s) && bt.monitors[s].display_id == permanent_id(j);
            let i = choose|i: u32| i < j && s == member_session(i);
            law_permanent_ids_distinct(i, j);
        }
        lemma_member_accepted(d, bt, desired, j);
        let live = bt.live_identities();
        lemma_connector_available(bt, permanent_id(j));
        lemma_acquired_wf(bt.connectors, permanent_id(j), live);
        lemma_created_wf(bt, now_ms, req, d.cfg.caps, d.adapters, d.preferred_adapter);
        let run = d.members_created(t, now_ms, desired, indices(0, k));
        assert(run.table == bt.created(now_ms, req, d.cfg.caps, d.adapters, d.preferred_adapter));
        assert(run.table.monitors.dom() =~= bt.monitors.dom().insert(member_session(j)));
        assert forall|s: u64| #[trigger] run.table.monitors.dom().contains(s) <==> exists|i: u32| i < k
            && s == member_session(i) by {
            if bt.monitors.dom().contains(s) {
                let i = choose|i: u32| i < j && s == member_session(i);
                assert(i < k && s == member_session(i));
            }
            if exists|i: u32| i < k && s == member_session(i) {
                let i = choose|i: u32| i < k && s == member_session(i);
                if i < j {
                    assert(bt.monitors.dom().contains(s));
                }
            }
            if s == member_session(j) {
                assert(j < k && s == member_session(j));
            }
        }
        assert forall|i: u32| i < k implies run.table.monitors[#[trigger] member_session(
            i,
        )].display_id == permanent_id(i) && run.table.monitors[member_session(i)].lease_timeout_ms
            == LEASE_TIMEOUT_DISABLED by {
            law_member_sessions_distinct(i, j);
            if i < j {
                assert(bt.monitors.dom().contains(member_session(i)));
            }
        }
    }
}

/// Handing out a connector keeps the reservations in order.
proof fn lemma_acquired_wf(c: ConnectorModel, display_id: u64, active: Set<u64>)
    requires
        c.wf(),
        c.next_age < u64::MAX,
    ensures
        c.acquired(display_id, active).wf(),
        c.acquired(display_id, active).next_age == c.next_age + 1,
{
    if !c.reservations.dom().contains(display_id) {
        if c.any_free() {
            lemma_lowest_free(c);
            assert(c.is_lowest_free(c.lowest_free()));
        } else if exists|d: u64| c.idle(d, active) {
            crate::identity::lemma_victim_exists(c, active);
            assert(c.is_victim(c.victim(active), active));
        }
    }
}

proof fn lemma_lowest_free(c: ConnectorModel)
    requires
        c.any_free(),
    ensures
        exists|x: u32| c.is_lowest_free(x),
{
    let x = choose|x: u32| x < c.max_connectors && !c.taken(x);
    lemma_lowest_free_below(c, x);
}

proof fn lemma_lowest_free_below(c: ConnectorModel, x: u32)
    requires
        x < c.max_connectors,
        !c.taken(x),
    ensures
        exists|y: u32| c.is_lowest_free(y),
    decreases x,
{
    if exists|y: u32| y < x && !c.taken(y) {
        let y = choose|y: u32| y < x && !c.taken(y);
        lemma_lowest_free_below(c, y);
    } else {
        assert(c.is_lowest_free(x));
    }
}

/// After a full teardown the pool is still what it was, stable identities keep their
/// connectors, and the next start brings every member of the pool back, as long as some
/// adapter can render.
pub proof fn law_pool_survives_teardown(d: DeviceModel, now_ms: u64)
    requires
        d.wf(),
        d.has_room(),
        d.pool_restorable(),
        adapter_for(d.adapters, 0, d.preferred_adapter) is Ok,
    ensures
        ({
            let down = d.with_table(d.table.without_sessions(d.table.monitors.dom()));
            let up = down.pool_pending().with_pool(now_ms, down.pool);
            let run = down.pool_pending().pool_run(now_ms, down.pool);
            &&& down.pool == d.pool
            &&& down.table.monitors.dom().len() == 0
            &&& forall|x: u64| #[trigger]
                d.table.connectors.reservations.dom().contains(x)
                    && !d.table.throwaway_identities(d.table.monitors.dom()).contains(x)
                    ==> down.table.connectors.reservations.dom().contains(x)
                    && down.table.connectors.reservations[x] == d.table.connectors.reservations[x]
            &&& run.result == err::OK
            &&& run.effects.len() == d.pool.count
            &&& forall|i: int| 0 <= i < run.effects.len() ==> #[trigger] run.effects[i] is PlugMonitor
            &&& up == (DeviceModel { table: up.table, ..d })
            &&& up.wf()
            &&& up.table.connectors.next_age <= d.table.connectors.next_age + d.pool.count
            &&& up.table.next_update_seq == d.table.next_update_seq
            &&& up.table.monitors.dom().len() == d.pool.count
            &&& forall|i: u32|
                i < d.pool.count ==> up.table.monitors.dom().contains(#[trigger] member_session(i))
        }),
{
    let down = d.with_table(d.table.without_sessions(d.table.monitors.dom()));
    crate::session::model::lemma_without_sessions_wf(d.table, d.table.monitors.dom());
    assert(down.table.monitors.dom() =~= Set::<u64>::empty());
    let pending = down.pool_pending();
    let gone = to_destroy(pending.pool, 0, down.pool);
    let made = to_create(pending.pool, 0, down.pool);
    assert(gone =~= Seq::<u32>::empty());
    assert(made =~= indices(0, d.pool.count));
    lemma_members_all_created(pending, down.table, now_ms, down.pool, d.pool.count);
    let run = pending.pool_run(now_ms, down.pool);
    assert(DeviceModel::members_unplugged(down.table, gone) =~= Seq::<EffectModel>::empty());
    lemma_members_performable(pending, down.table, now_ms, down.pool, made);
    assert(run.effects =~= pending.members_created(down.table, now_ms, down.pool, made).effects);
    assert forall|i: u32| i < d.pool.count implies run.table.monitors.dom().contains(
        #[trigger] member_session(i),
    ) by {
        assert(i < d.pool.count && member_session(i) == member_session(i));
    }
}

impl DeviceModel {
    /// The device after a full teardown.
    pub open spec fn down(self) -> DeviceModel {
        self.with_table(self.table.without_sessions(self.table.monitors.dom()))
    }

    /// The device after its stored pool was brought back.
    pub open spec fn up(self, now_ms: u64) -> DeviceModel {
        self.pool_pending().with_pool(now_ms, self.pool)
    }

    /// The device after teardowns, each followed by a start at the time given.
    pub open spec fn cycled(self, times: Seq<u64>) -> DeviceModel
        decreases times.len(),
    {
        if times.len() == 0 {
            self
        } else {
            self.cycled(times.drop_last()).down().up(times.last())
        }
    }
}

/// However often the device is torn down and started again, every start plugs in every
/// member of the pool and nothing else, and leaves exactly the members in the table.
pub proof fn law_pool_survives_many_teardowns(d: DeviceModel, times: Seq<u64>)
    requires
        d.wf(),
        d.table.next_update_seq < u64::MAX,
        d.pool_restorable(),
        adapter_for(d.adapters, 0, d.preferred_adapter) is Ok,
        d.table.connectors.next_age + d.pool.count * times.len() < u64::MAX - 8,
        times.len() > 0,
    ensures
        ({
            let before = d.cycled(times.drop_last()).down();
            let n = d.cycled(times);
            let run = before.pool_pending().pool_run(times.last(), before.pool);
            &&& before.table.monitors.dom().len() == 0
            &&& before.pool == d.pool
            &&& run.result == err::OK
            &&& run.effects.len() == d.pool.count
            &&& forall|i: int| 0 <= i < run.effects.len() ==> #[trigger] run.effects[i] is PlugMonitor
            &&& n.wf()
            &&& n == (DeviceModel { table: n.table, ..d })
            &&& n.table.monitors.dom().len() == d.pool.count
            &&& forall|i: u32|
                i < d.pool.count ==> n.table.monitors.dom().contains(#[trigger] member_session(i))
            &&& n.table.next_update_seq == d.table.next_update_seq
            &&& n.table.connectors.next_age <= d.table.connectors.next_age + d.pool.count
                * times.len()
        }),
    decreases times.len(),
{
    let rest = times.drop_last();
    let c = d.pool.count as int;
    assert(c * times.len() == c * rest.len() + c) by (nonlinear_arith)
        requires
            times.len() == rest.len() + 1,
    ;
    assert(c * rest.len() >= 0) by (nonlinear_arith)
        requires
            c >= 0,
    ;
    if rest.len() > 0 {
        law_pool_survives_many_teardowns(d, rest);
    }
    let b = d.cycled(rest);
    assert(b.wf() && b == (DeviceModel { table: b.table, ..d }));
    assert(b.table.connectors.next_age <= d.table.connectors.next_age + c * rest.len());
    law_pool_survives_teardown(b, times.last());
}

/// The watchdog never reaps a pool member.
pub proof fn law_pool_members_never_expire(m: MonitorModel, now_ms: u64)
    requires
        m.lease_timeout_ms == LEASE_TIMEOUT_DISABLED,
    ensures
        !m.expired(now_ms),
{
}

} // verus!
