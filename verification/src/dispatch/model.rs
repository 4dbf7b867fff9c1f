//! What each control request does to the device, what it answers, and what it leaves
//! to be done.
use vstd::prelude::*;

use crate::adapter::AdapterInfo;
use crate::dispatch::{DriverConfig, Status};
use crate::edid::{edid_bytes, EdidModel};
use crate::error::CoreError;
use crate::identity::ConnectorModel;
use crate::modes::Mode;
use crate::permanent::{member_request_of, member_session, pool_valid, to_create, to_destroy};
use crate::persist::{blob_of, state_of, PersistedModel};
use crate::proto::messages::{monitor_statuses_wire, CREATE_MONITOR_REQUEST_SIZE};
use crate::proto::names::{nul_padded, ring_section_units};
use crate::proto::wire::{i32_le, u16_le, u16s_le, u32_le, u64_le};
use crate::proto::{compatible, err, ioctl, update_status};
use crate::proto::{
    CreateMonitorRequest, DestroyMonitorRequest, HandshakeReply, HandshakeRequest,
    PermanentPoolConfig, PingRequest, QueryLeaseReply, QueryLeaseRequest, QueryPermanentPoolReply,
    SetRenderAdapterRequest, UpdateModesReply, UpdateModesRequest, ABI_MAX_MONITORS,
    ABI_MAX_RING_SLOTS, CREATE_MONITOR_REQUEST_SIZE_V3, MAX_MODES_PER_MONITOR, NO_REJECTED_INDEX,
    PROTO_VERSION_MAJOR, PROTO_VERSION_MINOR,
};
use crate::session::model::{clamped, reserved_identity, MonitorModel, TableModel};

verus! {

/// What is left to be done after a request.
pub enum EffectModel {
    PlugMonitor {
        session_id: u64,
        display_id: u64,
        connector_index: u32,
        modes: Seq<Mode>,
        targets: Seq<Mode>,
        adapter_luid: u64,
        ring_slots: u32,
        transport_flags: u32,
        edid: Seq<u8>,
    },
    UnplugMonitor { session_id: u64 },
    UpdateModes { session_id: u64, update_seq: u64, targets: Seq<Mode> },
    PersistState(Seq<u8>),
}

/// What a device holds.
pub struct DeviceModel {
    pub table: TableModel,
    pub cfg: DriverConfig,
    pub adapters: Seq<AdapterInfo>,
    pub preferred_adapter: u64,
    pub pool: PermanentPoolConfig,
    /// The token of what the operating system has committed.
    pub token: u64,
}

/// What a request came to: the device after it, whether the handle has shaken hands,
/// the reply and the effects.
pub struct Answer {
    pub dev: DeviceModel,
    pub handshaken: bool,
    pub reply: Seq<u8>,
    pub effects: Seq<EffectModel>,
}

/// The EDID of a monitor.
pub open spec fn monitor_edid_of(m: MonitorModel) -> Seq<u8> {
    edid_bytes(
        EdidModel {
            mode: m.modes[0],
            friendly_name: m.friendly_name@,
            serial: m.edid_serial,
            product_code: m.product_code,
            physical_width_mm: m.physical_width_mm,
            physical_height_mm: m.physical_height_mm,
            max_nits: m.max_nits,
        },
    )
}

/// Plug in a monitor as the table has it, with the targets it publishes.
pub open spec fn plug_of(m: MonitorModel, ring_slots: u32) -> EffectModel {
    EffectModel::PlugMonitor {
        session_id: m.session_id,
        display_id: m.display_id,
        connector_index: m.connector_index,
        modes: m.modes,
        targets: m.target_modes,
        adapter_luid: m.adapter_luid,
        ring_slots,
        transport_flags: m.flags,
        edid: monitor_edid_of(m),
    }
}

/// A pool without members.
pub open spec fn no_pool() -> PermanentPoolConfig {
    PermanentPoolConfig {
        count: 0,
        width: 0,
        height: 0,
        refresh_millihz: 0,
        bit_depth: 0,
        hdr: 0,
        physical_width_mm: 0,
        physical_height_mm: 0,
        name: [
            0, 0, 0, 0, 0, 0, 0, 0, 0, 0, 0, 0, 0, 0, 0, 0,
            0, 0, 0, 0, 0, 0, 0, 0, 0, 0, 0, 0, 0, 0, 0, 0,
        ],
    }
}

/// The create request in a buffer. One that ends before the luminance tail is still
/// good; the tail then reads as zero.
pub open spec fn create_request_in(input: Seq<u8>) -> Option<CreateMonitorRequest> {
    if input.len() >= CREATE_MONITOR_REQUEST_SIZE {
        CreateMonitorRequest::decoded(input)
    } else if input.len() >= CREATE_MONITOR_REQUEST_SIZE_V3 {
        CreateMonitorRequest::decoded(
            input.take(CREATE_MONITOR_REQUEST_SIZE_V3 as int) + seq![0u8, 0, 0, 0, 0, 0, 0, 0],
        )
    } else {
        None
    }
}

/// An encoded create reply.
pub open spec fn create_reply_wire(
    session_id: u64,
    display_id: u64,
    result: i32,
    ring_slots: u32,
    connector_index: u32,
    name: Seq<u16>,
) -> Seq<u8> {
    Seq::<u8>::empty() + u64_le(session_id) + u64_le(display_id) + i32_le(result) + u32_le(
        ring_slots,
    ) + u32_le(connector_index) + u32_le(0) + u16s_le(name)
}

/// An encoded status reply.
pub open spec fn status_wire(t: TableModel, uptime_ms: u64, driver_build: u32, drv_caps: u32) -> Seq<u8> {
    Seq::<u8>::empty() + u64_le(uptime_ms) + u32_le(driver_build) + u16_le(PROTO_VERSION_MAJOR)
        + u16_le(PROTO_VERSION_MINOR) + u32_le(drv_caps) + u32_le(t.max_monitors) + u32_le(
        t.watchdog_secs,
    ) + u32_le(t.monitors.dom().len() as u32) + monitor_statuses_wire(t.status_entries())
}

/// How far the members of a pool have been created.
pub struct PoolRun {
    pub table: TableModel,
    pub effects: Seq<EffectModel>,
    /// One past the last member created.
    pub created: u32,
    pub result: i32,
}

impl DeviceModel {
    pub open spec fn wf(self) -> bool {
        self.table.wf() && self.table.max_monitors == self.cap()
    }

    /// The counters have room for one more request.
    pub open spec fn has_room(self) -> bool {
        self.table.connectors.next_age < u64::MAX - 8 && self.table.next_update_seq < u64::MAX
    }

    pub open spec fn cap(self) -> u32 {
        clamped(self.cfg.max_monitors as int, 0, ABI_MAX_MONITORS as int) as u32
    }

    pub open spec fn slots(self) -> u32 {
        clamped(self.cfg.ring_slots as int, 2, ABI_MAX_RING_SLOTS as int) as u32
    }

    /// What is stored for the next start.
    pub open spec fn stored(self) -> PersistedModel {
        PersistedModel {
            reservations: self.table.connectors.listing(),
            pool: if self.pool.count > 0 {
                Some(self.pool)
            } else {
                None
            },
        }
    }

    pub open spec fn persist(self) -> EffectModel {
        EffectModel::PersistState(blob_of(self.stored()))
    }

    pub open spec fn with_table(self, table: TableModel) -> DeviceModel {
        DeviceModel { table, ..self }
    }

    /// A device at its start, from what was stored.
    pub open spec fn started(cfg: DriverConfig, blob: Option<Seq<u8>>) -> DeviceModel {
        let restored = match blob {
            Some(b) => match state_of(b) {
                Some(s) => s,
                None => PersistedModel { reservations: Seq::empty(), pool: None },
            },
            None => PersistedModel { reservations: Seq::empty(), pool: None },
        };
        let max_monitors = clamped(cfg.max_monitors as int, 0, ABI_MAX_MONITORS as int) as u32;
        let fresh = ConnectorModel {
            max_connectors: max_monitors,
            reservations: Map::empty(),
            next_age: 0,
        };
        DeviceModel {
            table: TableModel {
                max_monitors,
                watchdog_secs: cfg.watchdog_secs,
                monitors: Map::empty(),
                connectors: fresh.restored(restored.reservations),
                next_update_seq: 0,
            },
            cfg,
            adapters: Seq::empty(),
            preferred_adapter: 0,
            pool: match restored.pool {
                Some(p) => p,
                None => no_pool(),
            },
            token: 0,
        }
    }

    /// The table after the pool members in `indices` were destroyed.
    pub open spec fn table_without_members(t: TableModel, indices: Seq<u32>) -> TableModel
        decreases indices.len(),
    {
        if indices.len() == 0 {
            t
        } else {
            let before = DeviceModel::table_without_members(t, indices.drop_last());
            let sid = member_session(indices.last());
            if before.monitors.dom().contains(sid) {
                before.without_sessions(set![sid])
            } else {
                before
            }
        }
    }

    /// The monitors to unplug when the pool members in `indices` are destroyed.
    pub open spec fn members_unplugged(t: TableModel, indices: Seq<u32>) -> Seq<EffectModel>
        decreases indices.len(),
    {
        if indices.len() == 0 {
            Seq::empty()
        } else {
            let rest = indices.drop_last();
            let before = DeviceModel::members_unplugged(t, rest);
            let sid = member_session(indices.last());
            if DeviceModel::table_without_members(t, rest).monitors.dom().contains(sid) {
                before.push(EffectModel::UnplugMonitor { session_id: sid })
            } else {
                before
            }
        }
    }

    /// Creating the pool members in `indices` on top of table `t`, up to the first
    /// that is refused.
    pub open spec fn members_created(
        self,
        t: TableModel,
        now_ms: u64,
        desired: PermanentPoolConfig,
        indices: Seq<u32>,
    ) -> PoolRun
        decreases indices.len(),
    {
        if indices.len() == 0 {
            PoolRun { table: t, effects: Seq::empty(), created: 0, result: err::OK }
        } else {
            let before = self.members_created(t, now_ms, desired, indices.drop_last());
            let req = member_request_of(desired, indices.last());
            if before.result != err::OK {
                before
            } else {
                match before.table.create_refusal(
                    req,
                    self.cfg.caps,
                    self.adapters,
                    self.preferred_adapter,
                ) {
                    Some(e) => PoolRun { result: e.wire_code(), ..before },
                    None => PoolRun {
                        table: before.table.after_create(
                            now_ms,
                            req,
                            self.cfg.caps,
                            self.adapters,
                            self.preferred_adapter,
                        ),
                        effects: before.effects.push(
                            plug_of(
                                before.table.new_monitor(
                                    now_ms,
                                    req,
                                    self.cfg.caps,
                                    self.adapters,
                                    self.preferred_adapter,
                                ),
                                self.slots(),
                            ),
                        ),
                        created: (indices.last() + 1) as u32,
                        ..before
                    },
                }
            }
        }
    }

    /// Destroying and creating pool members to reach `desired`.
    pub open spec fn pool_run(self, now_ms: u64, desired: PermanentPoolConfig) -> PoolRun {
        let gone = to_destroy(self.pool, self.pool.count, desired);
        let made = to_create(self.pool, self.pool.count, desired);
        let run = self.members_created(
            DeviceModel::table_without_members(self.table, gone),
            now_ms,
            desired,
            made,
        );
        PoolRun {
            effects: DeviceModel::members_unplugged(self.table, gone) + run.effects,
            created: if made.len() == 0 {
                desired.count
            } else {
                run.created
            },
            ..run
        }
    }

    /// The device after its pool was brought to `desired`, as far as that went.
    pub open spec fn with_pool(self, now_ms: u64, desired: PermanentPoolConfig) -> DeviceModel {
        let run = self.pool_run(now_ms, desired);
        DeviceModel {
            table: run.table,
            pool: PermanentPoolConfig {
                count: if run.created < desired.count {
                    run.created
                } else {
                    desired.count
                },
                ..desired
            },
            ..self
        }
    }

    /// The stored pool can be recreated.
    pub open spec fn pool_restorable(self) -> bool {
        self.pool.count > 0 && pool_valid(self.pool, self.cfg.caps, self.cap())
    }

    /// The device before its stored pool is recreated: no member is live yet.
    pub open spec fn pool_pending(self) -> DeviceModel {
        DeviceModel { pool: PermanentPoolConfig { count: 0, ..self.pool }, ..self }
    }

    pub open spec fn on_handshake(self, req: HandshakeRequest) -> Answer {
        Answer {
            dev: self,
            handshaken: compatible(
                req.host_proto_major,
                req.host_proto_minor,
                PROTO_VERSION_MAJOR,
                PROTO_VERSION_MINOR,
            ),
            reply: (HandshakeReply {
                driver_proto_major: PROTO_VERSION_MAJOR,
                driver_proto_minor: PROTO_VERSION_MINOR,
                driver_build: self.cfg.driver_build,
                caps: self.cfg.caps,
                max_monitors: self.table.max_monitors,
                watchdog_secs: self.table.watchdog_secs,
            }).wire(),
            effects: Seq::empty(),
        }
    }

    /// Why a create request of a host is refused, if it is.
    pub open spec fn host_create_refusal(self, req: CreateMonitorRequest) -> Option<CoreError> {
        if reserved_identity(req.display_id) {
            Some(CoreError::IdentityInUse)
        } else {
            self.table.create_refusal(req, self.cfg.caps, self.adapters, self.preferred_adapter)
        }
    }

    pub open spec fn on_create(self, handshaken: bool, now_ms: u64, req: CreateMonitorRequest) -> Answer {
        let refusal = if handshaken {
            match self.host_create_refusal(req) {
                Some(e) => e.wire_code(),
                None => err::OK,
            }
        } else {
            err::NOT_HANDSHAKEN
        };
        if refusal != err::OK {
            Answer {
                dev: self,
                handshaken,
                reply: create_reply_wire(
                    req.session_id,
                    0,
                    refusal,
                    0,
                    0,
                    nul_padded(Seq::empty(), 64),
                ),
                effects: Seq::empty(),
            }
        } else {
            let after = self.with_table(
                self.table.after_create(
                    now_ms,
                    req,
                    self.cfg.caps,
                    self.adapters,
                    self.preferred_adapter,
                ),
            );
            let m = self.table.new_monitor(
                now_ms,
                req,
                self.cfg.caps,
                self.adapters,
                self.preferred_adapter,
            );
            Answer {
                dev: after,
                handshaken,
                reply: create_reply_wire(
                    req.session_id,
                    m.display_id,
                    err::OK,
                    self.slots(),
                    m.connector_index,
                    nul_padded(ring_section_units(req.session_id), 64),
                ),
                effects: seq![plug_of(m, self.slots()), after.persist()],
            }
        }
    }

    pub open spec fn on_destroy(self, handshaken: bool, req: DestroyMonitorRequest) -> Answer {
        if !handshaken {
            self.refused(handshaken, err::NOT_HANDSHAKEN)
        } else if !self.table.monitors.dom().contains(req.session_id) {
            self.refused(handshaken, err::NO_SUCH_SESSION)
        } else {
            let after = self.with_table(self.table.without_sessions(set![req.session_id]));
            Answer {
                dev: after,
                handshaken,
                reply: i32_le(err::OK),
                effects: seq![
                    EffectModel::UnplugMonitor { session_id: req.session_id },
                    after.persist(),
                ],
            }
        }
    }

    /// A request that changes nothing and answers with a bare code.
    pub open spec fn refused(self, handshaken: bool, code: i32) -> Answer {
        Answer { dev: self, handshaken, reply: i32_le(code), effects: Seq::empty() }
    }

    pub open spec fn on_ping(self, handshaken: bool, now_ms: u64, req: PingRequest) -> Answer {
        if !handshaken {
            self.refused(handshaken, err::NOT_HANDSHAKEN)
        } else if !self.table.monitors.dom().contains(req.session_id) {
            self.refused(handshaken, err::NO_SUCH_SESSION)
        } else {
            Answer {
                dev: self.with_table(self.table.pinged(now_ms, req.session_id)),
                handshaken,
                reply: i32_le(err::OK),
                effects: Seq::empty(),
            }
        }
    }

    pub open spec fn on_query_lease(self, handshaken: bool, now_ms: u64, req: QueryLeaseRequest) -> Answer {
        let blank = QueryLeaseReply {
            session_id: req.session_id,
            display_id: 0,
            remaining_ms: 0,
            connector_index: 0,
            result: err::OK,
            reserved: 0,
        };
        let reply = if !handshaken {
            QueryLeaseReply { result: err::NOT_HANDSHAKEN, ..blank }
        } else {
            match self.table.lease(now_ms, req.session_id) {
                Err(e) => QueryLeaseReply { result: e.wire_code(), ..blank },
                Ok(l) => QueryLeaseReply {
                    display_id: l.0,
                    connector_index: l.1,
                    remaining_ms: l.2,
                    ..blank
                },
            }
        };
        Answer { dev: self, handshaken, reply: reply.wire(), effects: Seq::empty() }
    }

    pub open spec fn on_set_render_adapter(self, handshaken: bool, req: SetRenderAdapterRequest) -> Answer {
        if !handshaken {
            self.refused(handshaken, err::NOT_HANDSHAKEN)
        } else {
            Answer {
                dev: DeviceModel { preferred_adapter: req.adapter_luid, ..self },
                handshaken,
                reply: i32_le(err::OK),
                effects: Seq::empty(),
            }
        }
    }

    pub open spec fn on_set_pool(self, handshaken: bool, now_ms: u64, req: PermanentPoolConfig) -> Answer {
        if !handshaken {
            self.refused(handshaken, err::NOT_HANDSHAKEN)
        } else if !pool_valid(req, self.cfg.caps, self.cap()) {
            self.refused(handshaken, err::BAD_POOL)
        } else {
            let after = self.with_pool(now_ms, req);
            let run = self.pool_run(now_ms, req);
            Answer {
                dev: after,
                handshaken,
                reply: i32_le(run.result),
                effects: run.effects.push(after.persist()),
            }
        }
    }

    pub open spec fn on_query_pool(self, handshaken: bool) -> Answer {
        Answer {
            dev: self,
            handshaken,
            reply: (QueryPermanentPoolReply { config: self.pool, result: err::OK, reserved: 0 }).wire(),
            effects: Seq::empty(),
        }
    }

    pub open spec fn on_get_status(self, handshaken: bool, now_ms: u64) -> Answer {
        Answer {
            dev: self,
            handshaken,
            reply: status_wire(self.table, now_ms, self.cfg.driver_build, self.cfg.caps),
            effects: Seq::empty(),
        }
    }

    /// The reply to a mode update before anything is known of it: the list in force
    /// and the number of modes asked for are told in any case.
    pub open spec fn update_reply_base(self, req: UpdateModesRequest) -> UpdateModesReply {
        UpdateModesReply {
            mode_count: if self.table.monitors.dom().contains(req.session_id) {
                self.table.monitors[req.session_id].target_modes.len() as u32
            } else {
                0
            },
            requested_count: req.mode_count,
            ..UpdateModesReply::initial(req.session_id)
        }
    }

    pub open spec fn on_update_modes(self, handshaken: bool, req: UpdateModesRequest) -> Answer {
        let base = self.update_reply_base(req);
        let quiet = Answer { dev: self, handshaken, reply: base.wire(), effects: Seq::empty() };
        if !handshaken {
            Answer { reply: UpdateModesReply { result: err::NOT_HANDSHAKEN, ..base }.wire(), ..quiet }
        } else if req.mode_count == 0 || req.mode_count > MAX_MODES_PER_MONITOR {
            Answer { reply: UpdateModesReply { result: err::BAD_MODE, ..base }.wire(), ..quiet }
        } else {
            match self.table.requested_modes(
                req.session_id,
                req.modes@.take(req.mode_count as int),
                self.cfg.caps,
            ) {
                Err(e) => Answer {
                    reply: UpdateModesReply { result: e.wire_code(), ..base }.wire(),
                    ..quiet
                },
                Ok(requested) => {
                    let a = self.table.update_answer(req.session_id, requested, self.token);
                    let flags = (if a.rejected > 0 {
                        update_status::PARTIAL
                    } else {
                        0
                    }) + (if a.pending {
                        update_status::PENDING
                    } else {
                        0
                    });
                    let told = UpdateModesReply {
                        mode_count: a.targets.len() as u32,
                        accepted_count: a.accepted as u32,
                        status_flags: flags as u32,
                        rejected_count: a.rejected as u32,
                        first_rejected_index: match a.first_rejected {
                            Some(i) => i as u32,
                            None => NO_REJECTED_INDEX,
                        },
                        ..base
                    };
                    let reply = match a.blocked {
                        Some(idx) => UpdateModesReply {
                            result: err::MODE_COMMITTED,
                            status_flags: told.status_flags | update_status::BLOCKED,
                            blocking_index: idx,
                            ..told
                        },
                        None => if a.refused {
                            UpdateModesReply { result: err::BAD_MODE, ..told }
                        } else {
                            told
                        },
                    };
                    Answer {
                        dev: self.with_table(
                            self.table.after_update(req.session_id, requested, self.token),
                        ),
                        handshaken,
                        reply: reply.wire(),
                        effects: match a.queued {
                            Some(seq) => seq![
                                EffectModel::UpdateModes {
                                    session_id: req.session_id,
                                    update_seq: seq,
                                    targets: a.targets,
                                },
                            ],
                            None => Seq::empty(),
                        },
                    }
                },
            }
        }
    }

    /// The answer to a request, or `None` when its input buffer is too short.
    pub open spec fn answer(self, handshaken: bool, now_ms: u64, code: u32, input: Seq<u8>) -> Option<Answer> {
        if code == ioctl::IOCTL_HANDSHAKE {
            match HandshakeRequest::decoded(input) {
                Some(req) => Some(self.on_handshake(req)),
                None => None,
            }
        } else if code == ioctl::IOCTL_CREATE_MONITOR {
            match create_request_in(input) {
                Some(req) => Some(self.on_create(handshaken, now_ms, req)),
                None => None,
            }
        } else if code == ioctl::IOCTL_DESTROY_MONITOR {
            match DestroyMonitorRequest::decoded(input) {
                Some(req) => Some(self.on_destroy(handshaken, req)),
                None => None,
            }
        } else if code == ioctl::IOCTL_UPDATE_MODES {
            match UpdateModesRequest::decoded(input) {
                Some(req) => Some(self.on_update_modes(handshaken, req)),
                None => None,
            }
        } else if code == ioctl::IOCTL_PING {
            match PingRequest::decoded(input) {
                Some(req) => Some(self.on_ping(handshaken, now_ms, req)),
                None => None,
            }
        } else if code == ioctl::IOCTL_QUERY_LEASE {
            match QueryLeaseRequest::decoded(input) {
                Some(req) => Some(self.on_query_lease(handshaken, now_ms, req)),
                None => None,
            }
        } else if code == ioctl::IOCTL_SET_RENDER_ADAPTER {
            match SetRenderAdapterRequest::decoded(input) {
                Some(req) => Some(self.on_set_render_adapter(handshaken, req)),
                None => None,
            }
        } else if code == ioctl::IOCTL_SET_PERMANENT_POOL {
            match PermanentPoolConfig::decoded(input) {
                Some(req) => Some(self.on_set_pool(handshaken, now_ms, req)),
                None => None,
            }
        } else if code == ioctl::IOCTL_QUERY_PERMANENT_POOL {
            Some(self.on_query_pool(handshaken))
        } else {
            Some(self.on_get_status(handshaken, now_ms))
        }
    }

    pub open spec fn known_code(code: u32) -> bool {
        ||| code == ioctl::IOCTL_HANDSHAKE
        ||| code == ioctl::IOCTL_CREATE_MONITOR
        ||| code == ioctl::IOCTL_DESTROY_MONITOR
        ||| code == ioctl::IOCTL_UPDATE_MODES
        ||| code == ioctl::IOCTL_PING
        ||| code == ioctl::IOCTL_QUERY_LEASE
        ||| code == ioctl::IOCTL_SET_RENDER_ADAPTER
        ||| code == ioctl::IOCTL_SET_PERMANENT_POOL
        ||| code == ioctl::IOCTL_QUERY_PERMANENT_POOL
        ||| code == ioctl::IOCTL_GET_STATUS
    }

    /// What a request comes to once its reply has to fit into `room` bytes. A reply
    /// that does not fit is not written and its effects are dropped; what the request
    /// did to the device stands, except that a mode update looks for room first.
    pub open spec fn outcome(
        self,
        handshaken: bool,
        now_ms: u64,
        code: u32,
        input: Seq<u8>,
        room: nat,
    ) -> (Status, Answer) {
        let nothing = Answer {
            dev: self,
            handshaken,
            reply: Seq::empty(),
            effects: Seq::empty(),
        };
        if !DeviceModel::known_code(code) {
            (Status::UnknownCode, nothing)
        } else {
            match self.answer(handshaken, now_ms, code, input) {
                None => (Status::BadBuffer, nothing),
                Some(a) => if room >= a.reply.len() {
                    (Status::Success, a)
                } else if code == ioctl::IOCTL_UPDATE_MODES {
                    (Status::BadBuffer, nothing)
                } else {
                    (Status::BadBuffer, Answer { reply: Seq::empty(), effects: Seq::empty(), ..a })
                },
            }
        }
    }

    /// The effects of a watchdog sweep: unplug what was reaped, in ascending order of
    /// session, and store what is left.
    pub open spec fn sweep_effects(self, now_ms: u64) -> Seq<EffectModel> {
        let dead = self.table.expired_sessions(now_ms);
        let gone = self.table.in_order(dead).map_values(
            |m: MonitorModel| EffectModel::UnplugMonitor { session_id: m.session_id },
        );
        if gone.len() == 0 {
            gone
        } else {
            gone.push(self.with_table(self.table.without_sessions(dead)).persist())
        }
    }
}

} // verus!
