//! The control plane: one entry point for requests from hosts, one for the watchdog.
//!
//! Parsing, validation, bookkeeping and replies happen here; what needs the operating
//! system is handed back as effects. Buffers hold bytes of unknown origin: a buffer
//! that is too short is refused, and a reply is written whole or not at all.
use vstd::prelude::*;

use crate::adapter::AdapterInfo;
use crate::edid::{generate, EdidParams};
use crate::modepush::{committed_token, CommittedPaths};
use crate::modes::{copy_modes, Mode};
use crate::permanent::{member_request, permanent_session_id, reconcile, to_destroy, validate};
use crate::persist::{parse, serialize, state_of, PersistedState};
use crate::proto::messages::{CREATE_MONITOR_REQUEST_SIZE, UPDATE_MODES_REPLY_SIZE};
use crate::proto::names::{nul_padded, ring_section_name};
use crate::proto::wire::{i32_le, put_i32};
use crate::proto::{err, ioctl, update_status, versions_compatible};
use crate::proto::{
    CreateMonitorReply, CreateMonitorRequest, DestroyMonitorRequest, HandshakeRequest,
    PermanentPoolConfig, PingRequest, QueryLeaseReply, QueryLeaseRequest, QueryPermanentPoolReply,
    SetRenderAdapterRequest, UpdateModesReply, UpdateModesRequest, ABI_MAX_MONITORS,
    ABI_MAX_RING_SLOTS, CREATE_MONITOR_REQUEST_SIZE_V3, DEFAULT_MAX_MONITORS, DEFAULT_RING_SLOTS,
    DEFAULT_WATCHDOG_SECS, MAX_MODES_PER_MONITOR,
};
use crate::session::model::TableModel;
use crate::session::{Monitor, SessionTable};

pub mod answers;
pub mod laws;
pub mod model;

use model::{create_request_in, monitor_edid_of, no_pool, plug_of, Answer, DeviceModel, EffectModel};

verus! {

/// Response to device removal: tear down the device, keep the display attached.
pub const TDR_DUCK_DEVICE: u32 = 0;

/// Response to device removal: unplug the display too.
pub const TDR_DUCK_DISPLAY: u32 = 1;

/// Fixed driver-side configuration.
#[derive(Clone, Copy, Debug)]
pub struct DriverConfig {
    pub caps: u32,
    pub driver_build: u32,
    pub max_monitors: u32,
    pub watchdog_secs: u32,
    pub ring_slots: u32,
    /// `TDR_DUCK_DEVICE` or `TDR_DUCK_DISPLAY`.
    pub tdr_duck_mode: u32,
}

impl Default for DriverConfig {
    fn default() -> (r: Self)
        ensures
            r == (DriverConfig {
                caps: 0,
                driver_build: 0,
                max_monitors: DEFAULT_MAX_MONITORS,
                watchdog_secs: DEFAULT_WATCHDOG_SECS,
                ring_slots: DEFAULT_RING_SLOTS,
                tdr_duck_mode: TDR_DUCK_DEVICE,
            }),
    {
        DriverConfig {
            caps: 0,
            driver_build: 0,
            max_monitors: DEFAULT_MAX_MONITORS,
            watchdog_secs: DEFAULT_WATCHDOG_SECS,
            ring_slots: DEFAULT_RING_SLOTS,
            tdr_duck_mode: TDR_DUCK_DEVICE,
        }
    }
}

/// The state of a device.
pub struct DeviceState {
    pub table: SessionTable,
    pub cfg: DriverConfig,
    pub adapters: Vec<AdapterInfo>,
    /// Device-wide preferred adapter (0 = none).
    pub preferred_adapter: u64,
    /// The permanent pool in force.
    pub pool: PermanentPoolConfig,
    /// What the operating system has committed.
    pub committed: CommittedPaths,
}

impl View for DeviceState {
    type V = DeviceModel;

    open spec fn view(&self) -> DeviceModel {
        DeviceModel {
            table: self.table@,
            cfg: self.cfg,
            adapters: self.adapters@,
            preferred_adapter: self.preferred_adapter,
            pool: self.pool,
            token: self.committed@.generation,
        }
    }
}

/// One open handle of a host process.
pub struct HandleCtx {
    /// A compatible handshake has been seen on this handle.
    pub handshaken: bool,
    /// The opener may use the control device at all; refused by default.
    pub authorized: bool,
}

impl Default for HandleCtx {
    fn default() -> (r: Self)
        ensures
            !r.handshaken,
            !r.authorized,
    {
        HandleCtx { handshaken: false, authorized: false }
    }
}

/// What is left to be done after a request.
#[derive(Debug, PartialEq)]
pub enum Effect {
    /// Plug in a monitor: describe it by `edid` and `modes`, publish `targets`, build
    /// its ring.
    PlugMonitor {
        session_id: u64,
        display_id: u64,
        connector_index: u32,
        modes: Vec<Mode>,
        targets: Vec<Mode>,
        adapter_luid: u64,
        ring_slots: u32,
        transport_flags: u32,
        edid: Box<[u8; 256]>,
    },
    /// Unplug a monitor and free its ring.
    UnplugMonitor { session_id: u64 },
    /// Publish another target list on a live monitor, and report to
    /// `SessionTable::settle_modes` what became of it.
    UpdateModes { session_id: u64, update_seq: u64, targets: Vec<Mode> },
    /// Store this blob and hand it to `DeviceState::new` at the next start.
    PersistState(Vec<u8>),
}

impl View for Effect {
    type V = EffectModel;

    open spec fn view(&self) -> EffectModel {
        match self {
            Effect::PlugMonitor {
                session_id,
                display_id,
                connector_index,
                modes,
                targets,
                adapter_luid,
                ring_slots,
                transport_flags,
                edid,
            } => EffectModel::PlugMonitor {
                session_id: *session_id,
                display_id: *display_id,
                connector_index: *connector_index,
                modes: modes@,
                targets: targets@,
                adapter_luid: *adapter_luid,
                ring_slots: *ring_slots,
                transport_flags: *transport_flags,
                edid: edid@,
            },
            Effect::UnplugMonitor { session_id } => EffectModel::UnplugMonitor {
                session_id: *session_id,
            },
            Effect::UpdateModes { session_id, update_seq, targets } => EffectModel::UpdateModes {
                session_id: *session_id,
                update_seq: *update_seq,
                targets: targets@,
            },
            Effect::PersistState(blob) => EffectModel::PersistState(blob@),
        }
    }
}

/// How to complete a request.
#[derive(Clone, Copy, Debug, PartialEq, Eq, Structural)]
pub enum Status {
    /// With the bytes written.
    Success,
    /// A buffer is too small.
    BadBuffer,
    /// No such request.
    UnknownCode,
}

#[derive(Debug)]
pub struct DispatchResult {
    pub status: Status,
    pub bytes_written: usize,
    pub effects: Vec<Effect>,
}

/// The models of some effects.
pub open spec fn effects_of(effects: Seq<Effect>) -> Seq<EffectModel> {
    effects.map_values(|e: Effect| e@)
}

impl DispatchResult {
    fn bad_buffer() -> (r: Self)
        ensures
            r.status == Status::BadBuffer,
            r.bytes_written == 0,
            r.effects@.len() == 0,
    {
        DispatchResult { status: Status::BadBuffer, bytes_written: 0, effects: Vec::new() }
    }
}

fn empty_pool() -> (r: PermanentPoolConfig)
    ensures
        r == no_pool(),
{
    let r = PermanentPoolConfig {
        count: 0,
        width: 0,
        height: 0,
        refresh_millihz: 0,
        bit_depth: 0,
        hdr: 0,
        physical_width_mm: 0,
        physical_height_mm: 0,
        name: [0; 32],
    };
    assert(r.name =~= no_pool().name);
    r
}

fn monitor_edid(m: &Monitor) -> (r: [u8; 256])
    requires
        m@.modes.len() > 0,
    ensures
        r@ == monitor_edid_of(m@),
{
    generate(
        &EdidParams {
            mode: m.preferred_mode(),
            friendly_name: m.friendly_name.as_slice(),
            serial: m.edid_serial,
            product_code: m.product_code,
            physical_width_mm: m.physical_width_mm,
            physical_height_mm: m.physical_height_mm,
            max_nits: m.max_nits,
        },
    ).bytes
}

fn plug_effect(m: &Monitor, ring_slots: u32) -> (r: Effect)
    requires
        m@.modes.len() > 0,
    ensures
        r@ == plug_of(m@, ring_slots),
{
    Effect::PlugMonitor {
        session_id: m.session_id,
        display_id: m.display_id,
        connector_index: m.connector_index,
        modes: copy_modes(m.modes.as_slice()),
        targets: copy_modes(m.target_modes.as_slice()),
        adapter_luid: m.adapter_luid,
        ring_slots,
        transport_flags: m.flags,
        edid: Box::new(monitor_edid(m)),
    }
}

/// A blob never holds more reservations than can be told from garbage.
proof fn lemma_restored_len(b: Seq<u8>)
    ensures
        state_of(b) matches Some(s) ==> s.reservations.len()
            <= crate::persist::MAX_STORED_RESERVATIONS,
{
}

impl DeviceState {
    pub open spec fn wf(&self) -> bool {
        self.table.wf() && self@.wf() && self.committed.wf()
    }

    /// A device at its start. `persisted` is the blob of the last
    /// `Effect::PersistState`; one that cannot be read counts as none.
    pub fn new(cfg: DriverConfig, persisted: Option<&[u8]>) -> (r: Self)
        ensures
            r.wf(),
            r@ == DeviceModel::started(
                cfg,
                match persisted {
                    Some(b) => Some(b@),
                    None => None,
                },
            ),
    {
        let restored: PersistedState = match persisted {
            Some(blob) => {
                proof {
                    lemma_restored_len(blob@);
                }
                match parse(blob) {
                    Some(s) => s,
                    None => PersistedState::default(),
                }
            },
            None => PersistedState::default(),
        };
        let mut table = SessionTable::new(cfg.max_monitors, cfg.watchdog_secs);
        proof {
            assert(table@.monitors.dom() =~= Set::<u64>::empty());
        }
        table.restore_reservations(restored.reservations.as_slice());
        proof {
            table.lemma_wf();
        }
        DeviceState {
            table,
            cfg,
            adapters: Vec::new(),
            preferred_adapter: 0,
            pool: match restored.pool {
                Some(p) => p,
                None => empty_pool(),
            },
            committed: CommittedPaths::new(),
        }
    }

    /// The adapters that can render now.
    pub fn set_adapters(&mut self, adapters: Vec<AdapterInfo>)
        ensures
            final(self)@ == (DeviceModel { adapters: adapters@, ..old(self)@ }),
            final(self).committed == old(self).committed,
            old(self).wf() ==> final(self).wf(),
    {
        self.adapters = adapters;
    }

    /// Whether the counters have room for one more request.
    pub fn has_room(&self) -> (r: bool)
        ensures
            r == self@.has_room(),
    {
        self.table.has_room()
    }

    /// The response to device removal in force.
    pub fn tdr_duck_mode(&self) -> (r: u32)
        ensures
            r == self@.cfg.tdr_duck_mode,
    {
        self.cfg.tdr_duck_mode
    }

    /// Drop every session after a full teardown. The pool configuration stays, so
    /// that the next `startup` brings its members back.
    pub fn device_teardown_reset(&mut self)
        requires
            old(self).wf(),
        ensures
            final(self).wf(),
            final(self)@ == old(self)@.with_table(
                old(self)@.table.without_sessions(old(self)@.table.monitors.dom()),
            ),
            final(self).committed == old(self).committed,
    {
        self.table.destroy_all();
        proof {
            self.table.lemma_wf();
        }
    }

    fn table_cap(&self) -> (r: u32)
        ensures
            r == self@.cap(),
    {
        if self.cfg.max_monitors < ABI_MAX_MONITORS {
            self.cfg.max_monitors
        } else {
            ABI_MAX_MONITORS
        }
    }

    fn ring_slots(&self) -> (r: u32)
        ensures
            r == self@.slots(),
    {
        if self.cfg.ring_slots < 2 {
            2
        } else if self.cfg.ring_slots > ABI_MAX_RING_SLOTS {
            ABI_MAX_RING_SLOTS
        } else {
            self.cfg.ring_slots
        }
    }

    fn persist_effect(&self) -> (r: Effect)
        requires
            self.wf(),
        ensures
            r@ == self@.persist(),
    {
        let state = PersistedState {
            reservations: self.table.reservations(),
            pool: if self.pool.count > 0 {
                Some(self.pool)
            } else {
                None
            },
        };
        Effect::PersistState(serialize(&state))
    }

    /// Destroy the pool members in `gone`.
    fn destroy_members(&mut self, gone: &[u32], effects: &mut Vec<Effect>)
        requires
            old(self).wf(),
        ensures
            final(self).wf(),
            final(self).committed == old(self).committed,
            final(self)@ == old(self)@.with_table(
                DeviceModel::table_without_members(old(self)@.table, gone@),
            ),
            final(self)@.table.connectors.next_age == old(self)@.table.connectors.next_age,
            final(self)@.table.next_update_seq == old(self)@.table.next_update_seq,
            effects_of(final(effects)@) == effects_of(old(effects)@) + DeviceModel::members_unplugged(
                old(self)@.table,
                gone@,
            ),
    {
        let ghost t0 = self@.table;
        let ghost e0 = effects_of(effects@);
        let mut i: usize = 0;
        assert(gone@.take(0) =~= Seq::<u32>::empty());
        assert(effects_of(effects@) =~= e0 + DeviceModel::members_unplugged(t0, gone@.take(0)));
        while i < gone.len()
            invariant
                i <= gone@.len(),
                self.wf(),
                self.committed == old(self).committed,
                t0 == old(self)@.table,
                self@ == old(self)@.with_table(
                    DeviceModel::table_without_members(t0, gone@.take(i as int)),
                ),
                self@.table.connectors.next_age == t0.connectors.next_age,
                self@.table.next_update_seq == t0.next_update_seq,
                effects_of(effects@) == e0 + DeviceModel::members_unplugged(t0, gone@.take(i as int)),
            decreases gone@.len() - i,
        {
            let sid: u64 = permanent_session_id(gone[i]);
            proof {
                assert(gone@.take(i + 1).drop_last() =~= gone@.take(i as int));
                assert(gone@.take(i + 1).last() == gone@[i as int]);
            }
            let ghost before = effects@;
            if self.table.destroy(sid).is_ok() {
                effects.push(Effect::UnplugMonitor { session_id: sid });
                proof {
                    let e = EffectModel::UnplugMonitor { session_id: sid };
                    assert(effects_of(effects@) =~= effects_of(before).push(e));
                    let known = DeviceModel::members_unplugged(t0, gone@.take(i as int));
                    assert((e0 + known).push(e) =~= e0 + known.push(e));
                }
            }
            proof {
                self.table.lemma_wf();
            }
            i += 1;
        }
        assert(gone@.take(i as int) =~= gone@);
    }

    /// Create the pool members in `made`, up to the first that is refused. Returns one
    /// past the last member created, and the result code.
    fn create_members(
        &mut self,
        now_ms: u64,
        desired: &PermanentPoolConfig,
        made: &[u32],
        effects: &mut Vec<Effect>,
    ) -> (r: (u32, i32))
        requires
            old(self).wf(),
            forall|i: int| 0 <= i < made@.len() ==> (#[trigger] made@[i]) < u32::MAX,
            old(self)@.table.connectors.next_age + made@.len() < u64::MAX,
        ensures
            final(self).wf(),
            final(self).committed == old(self).committed,
            ({
                let run = old(self)@.members_created(old(self)@.table, now_ms, *desired, made@);
                &&& final(self)@ == old(self)@.with_table(run.table)
                &&& effects_of(final(effects)@) == effects_of(old(effects)@) + run.effects
                &&& r == (run.created, run.result)
            }),
    {
        let ghost dev0 = self@;
        let ghost t0 = self@.table;
        let ghost e0 = effects_of(effects@);
        let ring_slots: u32 = self.ring_slots();
        let mut created: u32 = 0;
        let mut result: i32 = err::OK;
        let mut i: usize = 0;
        assert(made@.take(0) =~= Seq::<u32>::empty());
        assert(effects_of(effects@) =~= e0 + Seq::<EffectModel>::empty());
        while i < made.len()
            invariant
                i <= made@.len(),
                self.wf(),
                self.committed == old(self).committed,
                dev0 == old(self)@,
                t0 == dev0.table,
                ring_slots == dev0.slots(),
                forall|j: int| 0 <= j < made@.len() ==> (#[trigger] made@[j]) < u32::MAX,
                self@.table.connectors.next_age <= t0.connectors.next_age + i,
                t0.connectors.next_age + made@.len() < u64::MAX,
                ({
                    let run = dev0.members_created(t0, now_ms, *desired, made@.take(i as int));
                    &&& self@ == dev0.with_table(run.table)
                    &&& effects_of(effects@) == e0 + run.effects
                    &&& created == run.created
                    &&& result == run.result
                }),
            decreases made@.len() - i,
        {
            proof {
                assert(made@.take(i + 1).drop_last() =~= made@.take(i as int));
                assert(made@.take(i + 1).last() == made@[i as int]);
            }
            if result == err::OK {
                let req = member_request(desired, made[i]);
                let ghost before = effects@;
                let ghost table = self@.table;
                match self.table.create_trusted(
                    now_ms,
                    &req,
                    self.cfg.caps,
                    self.adapters.as_slice(),
                    self.preferred_adapter,
                ) {
                    Ok(m) => {
                        effects.push(plug_effect(m, ring_slots));
                        created = made[i] + 1;
                        proof {
                            let run = dev0.members_created(t0, now_ms, *desired, made@.take(i as int));
                            let e = effects@.last()@;
                            assert(effects_of(effects@) =~= effects_of(before).push(e));
                            assert((e0 + run.effects).push(e) =~= e0 + run.effects.push(e));
                        }
                    },
                    Err(e) => {
                        result = e.code();
                    },
                }
                proof {
                    self.table.lemma_wf();
                }
            }
            i += 1;
        }
        assert(made@.take(i as int) =~= made@);
        (created, result)
    }

    /// Destroy and create pool members to reach `desired`. Returns the result code;
    /// effects accumulate even where that fails half-way.
    fn apply_pool(&mut self, now_ms: u64, desired: &PermanentPoolConfig, effects: &mut Vec<Effect>) -> (r:
        i32)
        requires
            old(self).wf(),
            old(self)@.table.connectors.next_age + desired.count < u64::MAX,
        ensures
            final(self).wf(),
            final(self).committed == old(self).committed,
            final(self)@ == old(self)@.with_pool(now_ms, *desired),
            effects_of(final(effects)@) == effects_of(old(effects)@) + old(self)@.pool_run(
                now_ms,
                *desired,
            ).effects,
            r == old(self)@.pool_run(now_ms, *desired).result,
    {
        let ghost dev0 = self@;
        let ghost e0 = effects_of(effects@);
        let plan = reconcile(&self.pool, self.pool.count, desired);
        self.destroy_members(plan.destroy.as_slice(), effects);
        let (made, result) = self.create_members(now_ms, desired, plan.create.as_slice(), effects);
        let created: u32 = if plan.create.len() == 0 {
            desired.count
        } else {
            made
        };
        self.pool = *desired;
        self.pool.count =
        if created < desired.count {
            created
        } else {
            desired.count
        };
        proof {
            let gone = to_destroy(dev0.pool, dev0.pool.count, *desired);
            let between = dev0.with_table(DeviceModel::table_without_members(dev0.table, gone));
            let run = between.members_created(between.table, now_ms, *desired, plan.create@);
            lemma_members_created_same(dev0, between, between.table, now_ms, *desired, plan.create@);
            let unplugged = DeviceModel::members_unplugged(dev0.table, gone);
            assert(e0 + unplugged + run.effects =~= e0 + (unplugged + run.effects));
        }
        result
    }

    /// Bring the stored pool back. Called once at device start, when the adapters are
    /// known.
    pub fn startup(&mut self, now_ms: u64) -> (r: Vec<Effect>)
        requires
            old(self).wf(),
            old(self)@.has_room(),
        ensures
            final(self).wf(),
            final(self).committed == old(self).committed,
            old(self)@.pool_restorable() ==> final(self)@ == old(self)@.pool_pending().with_pool(
                now_ms,
                old(self)@.pool,
            ) && effects_of(r@) == old(self)@.pool_pending().pool_run(now_ms, old(self)@.pool).effects,
            !old(self)@.pool_restorable() ==> final(self)@ == old(self)@ && r@.len() == 0,
    {
        let mut effects: Vec<Effect> = Vec::new();
        if self.pool.count > 0 && validate(&self.pool, self.cfg.caps, self.table_cap()).is_ok() {
            let desired = self.pool;
            self.pool.count = 0;
            let ghost pending = self@;
            assert(pending == old(self)@.pool_pending());
            let _ = self.apply_pool(now_ms, &desired, &mut effects);
            assert(effects_of(effects@) =~= pending.pool_run(now_ms, desired).effects);
        }
        effects
    }
}

/// Which members a pool gets depends on the configuration, not on the table it is
/// read next to.
proof fn lemma_members_created_same(
    a: DeviceModel,
    b: DeviceModel,
    t: TableModel,
    now_ms: u64,
    desired: PermanentPoolConfig,
    made: Seq<u32>,
)
    requires
        a.cfg == b.cfg,
        a.adapters == b.adapters,
        a.preferred_adapter == b.preferred_adapter,
    ensures
        a.members_created(t, now_ms, desired, made) == b.members_created(t, now_ms, desired, made),
    decreases made.len(),
{
    if made.len() > 0 {
        lemma_members_created_same(a, b, t, now_ms, desired, made.drop_last());
    }
}

/// The create request in a buffer, with or without its luminance tail.
fn read_create_request(input: &[u8]) -> (r: Option<CreateMonitorRequest>)
    ensures
        r == create_request_in(input@),
{
    if input.len() >= CREATE_MONITOR_REQUEST_SIZE {
        return CreateMonitorRequest::from_bytes(input);
    }
    if input.len() < CREATE_MONITOR_REQUEST_SIZE_V3 {
        return None;
    }
    let mut padded: Vec<u8> = Vec::new();
    let mut i: usize = 0;
    while i < CREATE_MONITOR_REQUEST_SIZE_V3
        invariant
            i <= CREATE_MONITOR_REQUEST_SIZE_V3 <= input@.len(),
            padded@ == input@.take(i as int),
        decreases CREATE_MONITOR_REQUEST_SIZE_V3 - i,
    {
        padded.push(input[i]);
        i += 1;
        assert(padded@ =~= input@.take(i as int));
    }
    let ghost head = padded@;
    let tail: [u8; 8] = [0, 0, 0, 0, 0, 0, 0, 0];
    crate::proto::wire::put_bytes(&mut padded, tail.as_slice());
    assert(tail@ =~= seq![0u8, 0, 0, 0, 0, 0, 0, 0]);
    CreateMonitorRequest::from_bytes(padded.as_slice())
}

/// The mode-update request in a buffer. Longer requests of newer hosts are fine.
fn read_update_modes_request(input: &[u8]) -> (r: Option<UpdateModesRequest>)
    ensures
        r == UpdateModesRequest::decoded(input@),
{
    UpdateModesRequest::from_bytes(input)
}

/// A reply and what is left to be done.
struct Prepared {
    reply: Vec<u8>,
    effects: Vec<Effect>,
}

fn code_reply(result: i32) -> (r: Vec<u8>)
    ensures
        r@ == i32_le(result),
{
    let mut out: Vec<u8> = Vec::new();
    put_i32(&mut out, result);
    assert(out@ =~= i32_le(result));
    out
}

fn quiet(reply: Vec<u8>) -> (r: Prepared)
    ensures
        r.reply@ == reply@,
        r.effects@.len() == 0,
{
    Prepared { reply, effects: Vec::new() }
}

impl Prepared {
    /// This is the answer `a`, and the device is in the state `a` leaves it in.
    spec fn is(&self, a: Answer, dev: &DeviceState, handshaken: bool) -> bool {
        &&& self.reply@ == a.reply
        &&& effects_of(self.effects@) == a.effects
        &&& dev@ == a.dev
        &&& handshaken == a.handshaken
    }
}

fn handle_handshake(dev: &DeviceState, handle: &mut HandleCtx, req: HandshakeRequest) -> (r: Prepared)
    ensures
        r.is(dev@.on_handshake(req), dev, final(handle).handshaken),
        final(handle).authorized == old(handle).authorized,
{
    let reply = dev.table.handshake_reply(dev.cfg.caps, dev.cfg.driver_build);
    handle.handshaken =
    versions_compatible(
        req.host_proto_major,
        req.host_proto_minor,
        reply.driver_proto_major,
        reply.driver_proto_minor,
    );
    let r = quiet(reply.to_bytes());
    assert(effects_of(r.effects@) =~= Seq::<EffectModel>::empty());
    r
}

fn handle_create(dev: &mut DeviceState, handshaken: bool, now_ms: u64, req: CreateMonitorRequest) -> (r:
    Prepared)
    requires
        old(dev).wf(),
        old(dev)@.has_room(),
    ensures
        final(dev).wf(),
        final(dev).committed == old(dev).committed,
        r.is(old(dev)@.on_create(handshaken, now_ms, req), final(dev), handshaken),
{
    let mut reply = CreateMonitorReply {
        session_id: req.session_id,
        display_id: 0,
        result: err::OK,
        ring_slots: 0,
        connector_index: 0,
        reserved: 0,
        ring_section_name: [0; 64],
    };
    assert(reply.ring_section_name@ =~= nul_padded(Seq::empty(), 64));
    let mut effects: Vec<Effect> = Vec::new();
    assert(effects_of(effects@) =~= Seq::<EffectModel>::empty());
    if !handshaken {
        reply.result = err::NOT_HANDSHAKEN;
    } else {
        let ring_slots: u32 = dev.ring_slots();
        match dev.table.create(
            now_ms,
            &req,
            dev.cfg.caps,
            dev.adapters.as_slice(),
            dev.preferred_adapter,
        ) {
            Ok(monitor) => {
                reply.display_id = monitor.display_id;
                reply.ring_slots = ring_slots;
                reply.connector_index = monitor.connector_index;
                let _ = ring_section_name(req.session_id, &mut reply.ring_section_name);
                effects.push(plug_effect(monitor, ring_slots));
                proof {
                    dev.table.lemma_wf();
                }
                effects.push(dev.persist_effect());
                proof {
                    let a = old(dev)@.on_create(handshaken, now_ms, req);
                    assert(effects_of(effects@) =~= a.effects);
                }
            },
            Err(e) => {
                reply.result = e.code();
                proof {
                    dev.table.lemma_wf();
                    crate::error::law_codes_distinct(e, e);
                }
            },
        }
    }
    Prepared { reply: reply.to_bytes(), effects }
}

fn handle_destroy(dev: &mut DeviceState, handshaken: bool, req: DestroyMonitorRequest) -> (r: Prepared)
    requires
        old(dev).wf(),
    ensures
        final(dev).wf(),
        final(dev).committed == old(dev).committed,
        r.is(old(dev)@.on_destroy(handshaken, req), final(dev), handshaken),
{
    let mut effects: Vec<Effect> = Vec::new();
    let result: i32 = if !handshaken {
        err::NOT_HANDSHAKEN
    } else {
        match dev.table.destroy(req.session_id) {
            Ok(_) => {
                proof {
                    dev.table.lemma_wf();
                }
                effects.push(Effect::UnplugMonitor { session_id: req.session_id });
                effects.push(dev.persist_effect());
                err::OK
            },
            Err(e) => e.code(),
        }
    };
    assert(effects_of(effects@) =~= old(dev)@.on_destroy(handshaken, req).effects);
    Prepared { reply: code_reply(result), effects }
}

fn handle_ping(dev: &mut DeviceState, handshaken: bool, now_ms: u64, req: PingRequest) -> (r: Prepared)
    requires
        old(dev).wf(),
    ensures
        final(dev).wf(),
        final(dev).committed == old(dev).committed,
        r.is(old(dev)@.on_ping(handshaken, now_ms, req), final(dev), handshaken),
{
    let result: i32 = if !handshaken {
        err::NOT_HANDSHAKEN
    } else {
        match dev.table.ping(now_ms, req.session_id) {
            Ok(()) => err::OK,
            Err(e) => e.code(),
        }
    };
    proof {
        dev.table.lemma_wf();
    }
    let r = quiet(code_reply(result));
    assert(effects_of(r.effects@) =~= Seq::<EffectModel>::empty());
    r
}

fn handle_query_lease(dev: &DeviceState, handshaken: bool, now_ms: u64, req: QueryLeaseRequest) -> (r:
    Prepared)
    requires
        dev.wf(),
    ensures
        r.is(dev@.on_query_lease(handshaken, now_ms, req), dev, handshaken),
{
    let mut reply = QueryLeaseReply {
        session_id: req.session_id,
        display_id: 0,
        remaining_ms: 0,
        connector_index: 0,
        result: err::OK,
        reserved: 0,
    };
    if !handshaken {
        reply.result = err::NOT_HANDSHAKEN;
    } else {
        match dev.table.query_lease(now_ms, req.session_id) {
            Ok((display_id, connector, remaining)) => {
                reply.display_id = display_id;
                reply.connector_index = connector;
                reply.remaining_ms = remaining;
            },
            Err(e) => {
                reply.result = e.code();
            },
        }
    }
    let r = quiet(reply.to_bytes());
    assert(effects_of(r.effects@) =~= Seq::<EffectModel>::empty());
    r
}

fn handle_set_render_adapter(dev: &mut DeviceState, handshaken: bool, req: SetRenderAdapterRequest) -> (r:
    Prepared)
    requires
        old(dev).wf(),
    ensures
        final(dev).wf(),
        final(dev).committed == old(dev).committed,
        r.is(old(dev)@.on_set_render_adapter(handshaken, req), final(dev), handshaken),
{
    let result: i32 = if !handshaken {
        err::NOT_HANDSHAKEN
    } else {
        dev.preferred_adapter = req.adapter_luid;
        err::OK
    };
    let r = quiet(code_reply(result));
    assert(effects_of(r.effects@) =~= Seq::<EffectModel>::empty());
    r
}

fn handle_set_pool(dev: &mut DeviceState, handshaken: bool, now_ms: u64, req: PermanentPoolConfig) -> (r:
    Prepared)
    requires
        old(dev).wf(),
        old(dev)@.has_room(),
    ensures
        final(dev).wf(),
        final(dev).committed == old(dev).committed,
        r.is(old(dev)@.on_set_pool(handshaken, now_ms, req), final(dev), handshaken),
{
    let mut effects: Vec<Effect> = Vec::new();
    let result: i32 = if !handshaken {
        err::NOT_HANDSHAKEN
    } else {
        match validate(&req, dev.cfg.caps, dev.table_cap()) {
            Ok(()) => {
                let r: i32 = dev.apply_pool(now_ms, &req, &mut effects);
                effects.push(dev.persist_effect());
                r
            },
            Err(e) => e.code(),
        }
    };
    assert(effects_of(effects@) =~= old(dev)@.on_set_pool(handshaken, now_ms, req).effects);
    Prepared { reply: code_reply(result), effects }
}

fn handle_query_pool(dev: &DeviceState, handshaken: bool) -> (r: Prepared)
    ensures
        r.is(dev@.on_query_pool(handshaken), dev, handshaken),
{
    let reply = QueryPermanentPoolReply { config: dev.pool, result: err::OK, reserved: 0 };
    let r = quiet(reply.to_bytes());
    assert(effects_of(r.effects@) =~= Seq::<EffectModel>::empty());
    r
}

fn handle_get_status(dev: &DeviceState, handshaken: bool, now_ms: u64) -> (r: Prepared)
    requires
        dev.wf(),
    ensures
        r.is(dev@.on_get_status(handshaken, now_ms), dev, handshaken),
{
    let reply = dev.table.status(now_ms, dev.cfg.driver_build, dev.cfg.caps);
    let r = quiet(reply.to_bytes());
    assert(effects_of(r.effects@) =~= Seq::<EffectModel>::empty());
    r
}

/// Words a reply needs of a mode update that was looked at.
fn update_flags(rejected: usize, pending: bool) -> (r: u32)
    ensures
        r == (if rejected > 0 {
            update_status::PARTIAL
        } else {
            0
        }) + (if pending {
            update_status::PENDING
        } else {
            0
        }),
{
    let mut flags: u32 = 0;
    if rejected > 0 {
        flags = flags + update_status::PARTIAL;
    }
    if pending {
        flags = flags + update_status::PENDING;
    }
    flags
}

fn handle_update_modes(dev: &mut DeviceState, handshaken: bool, req: UpdateModesRequest) -> (r: Prepared)
    requires
        old(dev).wf(),
        old(dev)@.has_room(),
    ensures
        final(dev).wf(),
        final(dev).committed == old(dev).committed,
        r.is(old(dev)@.on_update_modes(handshaken, req), final(dev), handshaken),
{
    let mut reply = UpdateModesReply::new(req.session_id);
    let mut effects: Vec<Effect> = Vec::new();
    assert(effects_of(effects@) =~= Seq::<EffectModel>::empty());
    reply.mode_count =
    match dev.table.get(req.session_id) {
        Some(m) => m.target_modes.len() as u32,
        None => 0,
    };
    reply.set_detail(0, req.mode_count, 0);
    assert(reply == dev@.update_reply_base(req));
    if !handshaken {
        reply.result = err::NOT_HANDSHAKEN;
    } else if req.mode_count == 0 || req.mode_count > MAX_MODES_PER_MONITOR {
        reply.result = err::BAD_MODE;
    } else {
        let specs = vstd::slice::slice_subrange(req.modes.as_slice(), 0, req.mode_count as usize);
        assert(specs@ =~= req.modes@.take(req.mode_count as int));
        let token: u64 = committed_token(&dev.committed);
        match dev.table.update_modes(req.session_id, specs, dev.cfg.caps, token) {
            Ok(update) => {
                proof {
                    dev.table.lemma_wf();
                }
                reply.mode_count = update.targets.len() as u32;
                reply.set_rejected(
                    update.rejected as u32,
                    match update.first_rejected {
                        Some(i) => Some(i as u32),
                        None => None,
                    },
                );
                let flags: u32 = update_flags(update.rejected, update.pending);
                reply.set_detail(update.accepted as u32, req.mode_count, flags);
                if let Some(blocking_mode_idx) = update.blocked {
                    reply.result = err::MODE_COMMITTED;
                    reply.set_blocked(blocking_mode_idx);
                } else if update.refused {
                    reply.result = err::BAD_MODE;
                }
                if let Some(update_seq) = update.queued {
                    effects.push(
                        Effect::UpdateModes {
                            session_id: req.session_id,
                            update_seq,
                            targets: update.targets,
                        },
                    );
                }
                assert(effects_of(effects@) =~= old(dev)@.on_update_modes(handshaken, req).effects);
            },
            Err(e) => {
                reply.result = e.code();
            },
        }
    }
    Prepared { reply: reply.to_bytes(), effects }
}

/// Write a whole reply or nothing.
fn write_reply(output: &mut [u8], prepared: Prepared) -> (r: DispatchResult)
    ensures
        final(output)@.len() == old(output)@.len(),
        prepared.reply@.len() <= old(output)@.len() ==> {
            &&& r.status == Status::Success
            &&& r.bytes_written == prepared.reply@.len()
            &&& r.effects@ == prepared.effects@
            &&& final(output)@ == prepared.reply@ + old(output)@.skip(prepared.reply@.len() as int)
        },
        prepared.reply@.len() > old(output)@.len() ==> {
            &&& r.status == Status::BadBuffer
            &&& r.bytes_written == 0
            &&& r.effects@.len() == 0
            &&& final(output)@ == old(output)@
        },
{
    let n: usize = prepared.reply.len();
    if output.len() < n {
        return DispatchResult::bad_buffer();
    }
    let mut i: usize = 0;
    while i < n
        invariant
            i <= n,
            n == prepared.reply@.len(),
            n <= output@.len(),
            output@.len() == old(output)@.len(),
            forall|j: int| 0 <= j < i ==> #[trigger] output@[j] == prepared.reply@[j],
            forall|j: int| i <= j < output@.len() ==> #[trigger] output@[j] == old(output)@[j],
        decreases n - i,
    {
        output[i] = prepared.reply[i];
        i += 1;
    }
    assert(output@ =~= prepared.reply@ + old(output)@.skip(n as int));
    DispatchResult { status: Status::Success, bytes_written: n, effects: prepared.effects }
}

/// The one entry point for requests from hosts.
pub fn dispatch(
    dev: &mut DeviceState,
    handle: &mut HandleCtx,
    now_ms: u64,
    code: u32,
    input: &[u8],
    output: &mut [u8],
) -> (r: DispatchResult)
    requires
        old(dev).wf(),
        old(dev)@.has_room(),
    ensures
        final(dev).wf(),
        final(dev).committed == old(dev).committed,
        final(handle).authorized == old(handle).authorized,
        ({
            let (status, answer) = old(dev)@.outcome(
                old(handle).handshaken,
                now_ms,
                code,
                input@,
                old(output)@.len(),
            );
            &&& r.status == status
            &&& r.bytes_written == answer.reply.len()
            &&& effects_of(r.effects@) == answer.effects
            &&& final(dev)@ == answer.dev
            &&& final(handle).handshaken == answer.handshaken
            &&& final(output)@ == answer.reply + old(output)@.skip(answer.reply.len() as int)
        }),
{
    broadcast use crate::proto::update_reply::lemma_update_reply_len;

    let handshaken: bool = handle.handshaken;
    let ghost out0 = output@;
    assert(Seq::<u8>::empty() + out0.skip(0) =~= out0);
    assert forall|e: Seq<Effect>| e.len() == 0 implies #[trigger] effects_of(e) == Seq::<
        EffectModel,
    >::empty() by {
        assert(effects_of(e) =~= Seq::<EffectModel>::empty());
    }
    let prepared = match code {
        ioctl::IOCTL_HANDSHAKE => match HandshakeRequest::from_bytes(input) {
            Some(req) => handle_handshake(dev, handle, req),
            None => return DispatchResult::bad_buffer(),
        },
        ioctl::IOCTL_CREATE_MONITOR => match read_create_request(input) {
            Some(req) => handle_create(dev, handshaken, now_ms, req),
            None => return DispatchResult::bad_buffer(),
        },
        ioctl::IOCTL_DESTROY_MONITOR => match DestroyMonitorRequest::from_bytes(input) {
            Some(req) => handle_destroy(dev, handshaken, req),
            None => return DispatchResult::bad_buffer(),
        },
        ioctl::IOCTL_UPDATE_MODES => {
            let req = match read_update_modes_request(input) {
                Some(req) => req,
                None => return DispatchResult::bad_buffer(),
            };
            // Room for the reply comes before the table is touched: an update whose
            // effect is dropped would never be heard of again.
            if output.len() < UPDATE_MODES_REPLY_SIZE {
                return DispatchResult::bad_buffer();
            }
            handle_update_modes(dev, handshaken, req)
        },
        ioctl::IOCTL_PING => match PingRequest::from_bytes(input) {
            Some(req) => handle_ping(dev, handshaken, now_ms, req),
            None => return DispatchResult::bad_buffer(),
        },
        ioctl::IOCTL_QUERY_LEASE => match QueryLeaseRequest::from_bytes(input) {
            Some(req) => handle_query_lease(dev, handshaken, now_ms, req),
            None => return DispatchResult::bad_buffer(),
        },
        ioctl::IOCTL_SET_RENDER_ADAPTER => match SetRenderAdapterRequest::from_bytes(input) {
            Some(req) => handle_set_render_adapter(dev, handshaken, req),
            None => return DispatchResult::bad_buffer(),
        },
        ioctl::IOCTL_SET_PERMANENT_POOL => match PermanentPoolConfig::from_bytes(input) {
            Some(req) => handle_set_pool(dev, handshaken, now_ms, req),
            None => return DispatchResult::bad_buffer(),
        },
        // Diagnostics work without a handshake.
        ioctl::IOCTL_QUERY_PERMANENT_POOL => handle_query_pool(dev, handshaken),
        ioctl::IOCTL_GET_STATUS => handle_get_status(dev, handshaken, now_ms),
        _ => return DispatchResult {
            status: Status::UnknownCode,
            bytes_written: 0,
            effects: Vec::new(),
        },
    };
    write_reply(output, prepared)
}

/// Watchdog sweep, called about once a second: end every session whose lease has run
/// out.
pub fn watchdog_tick(dev: &mut DeviceState, now_ms: u64) -> (r: Vec<Effect>)
    requires
        old(dev).wf(),
    ensures
        final(dev).wf(),
        final(dev).committed == old(dev).committed,
        final(dev)@ == old(dev)@.with_table(
            old(dev)@.table.without_sessions(old(dev)@.table.expired_sessions(now_ms)),
        ),
        effects_of(r@) == old(dev)@.sweep_effects(now_ms),
{
    let ghost dead = dev@.table.expired_sessions(now_ms);
    let ghost ms = dev@.table.in_order(dead);
    let reaped: Vec<Monitor> = dev.table.tick(now_ms);
    proof {
        dev.table.lemma_wf();
        assert(ms.len() == reaped@.len());
        assert forall|i: int| 0 <= i < reaped@.len() implies (#[trigger] reaped@[i])@ == ms[i] by {
            assert(ms[i] == reaped@.map_values(|m: Monitor| m@)[i]);
        }
    }
    let mut effects: Vec<Effect> = Vec::new();
    let mut i: usize = 0;
    while i < reaped.len()
        invariant
            i <= reaped@.len(),
            ms.len() == reaped@.len(),
            forall|j: int| 0 <= j < reaped@.len() ==> (#[trigger] reaped@[j])@ == ms[j],
            effects@.len() == i,
            forall|j: int|
                0 <= j < i ==> (#[trigger] effects@[j])@ == (EffectModel::UnplugMonitor {
                    session_id: ms[j].session_id,
                }),
        decreases reaped@.len() - i,
    {
        effects.push(Effect::UnplugMonitor { session_id: reaped[i].session_id });
        i += 1;
    }
    if effects.len() > 0 {
        effects.push(dev.persist_effect());
    }
    assert(effects_of(effects@) =~= old(dev)@.sweep_effects(now_ms));
    effects
}

/// The ways of recovering in numbers.
pub proof fn law_recovery_mode_values()
    ensures
        TDR_DUCK_DEVICE == 0 && TDR_DUCK_DISPLAY == 1,
{
}

} // verus!
