//! The session table: which leases have a monitor, and what each publishes.
//!
//! One streaming client is one lease (`session_id`) on one virtual monitor. The
//! monitor's identity (`display_id`) is separate and outlives the lease. Leases
//! are fed by pings and reaped one by one. Time is handed in as milliseconds on a
//! monotonic clock.
use vstd::prelude::*;

use crate::adapter::{select_adapter, AdapterInfo};
use crate::error::CoreError;
use crate::identity::{
    ephemeral_display_id, is_permanent_display_id, permanent_product_code, serial_from_display_id,
    temporary_product_code, ConnectorModel, ConnectorTable, EPHEMERAL_DISPLAY_ID_BASE,
};
use crate::idmap::{sorted_ids, IdMap};
use crate::modes::{copy_modes, holds_mode, same_modes, Mode};
use crate::proto::messages::zero_monitor_status;
use crate::proto::{create_flags, err, ring_state};
use crate::proto::{
    CreateMonitorRequest, GetStatusReply, HandshakeReply, ModeSpec, MonitorStatus, ABI_MAX_MONITORS,
    DEFAULT_LEASE_TIMEOUT_MS, LEASE_TIMEOUT_DISABLED, LEASE_TIMEOUT_USE_DEFAULT, MAX_LEASE_TIMEOUT_MS,
    MAX_MODES_PER_MONITOR, MIN_LEASE_TIMEOUT_MS, PROTO_VERSION_MAJOR, PROTO_VERSION_MINOR,
};

pub mod laws;
pub mod model;

pub use model::{ModeUpdateResult, SettleOutcome};
use model::{
    clamped, lease_timeout, lemma_connector_available, lemma_created_wf, lemma_with_monitor_wf,
    lemma_restored_wf, lemma_without_sessions_step, lemma_without_sessions_wf, publishable,
    reserved_identity, MonitorModel, PendingModel, RefusalModel, TableModel, UpdateModel,
};

verus! {

/// A target list on its way to the operating system.
#[derive(Clone, Debug)]
pub struct PendingUpdate {
    pub seq: u64,
    pub targets: Vec<Mode>,
}

/// A target list that was refused because it would gate out the committed mode.
#[derive(Clone, Debug)]
pub struct ModeRefusal {
    pub targets: Vec<Mode>,
    /// Where the committed mode stands in the monitor's description.
    pub superset_idx: u32,
    /// What had been committed when the list was refused.
    pub token: u64,
}

/// A live virtual monitor.
#[derive(Clone, Debug)]
pub struct Monitor {
    /// Lease key.
    pub session_id: u64,
    /// Stable identity, possibly derived from the session.
    pub display_id: u64,
    /// The identity was derived from the session; its connector is given up with
    /// the lease.
    pub ephemeral_identity: bool,
    pub connector_index: u32,
    pub edid_serial: u32,
    /// The serial follows from the identity; the request set none.
    pub derived_serial: bool,
    pub product_code: u16,
    /// What the monitor describes, preferred first. Fixed for its life.
    pub modes: Vec<Mode>,
    /// What the monitor publishes: a non-empty part of `modes`.
    pub target_modes: Vec<Mode>,
    /// What it will publish once the operating system has taken it.
    pub pending_targets: Option<PendingUpdate>,
    /// The last list refused for good.
    pub refusal: Option<ModeRefusal>,
    /// Reports on updates older than this are no longer news.
    pub update_floor: u64,
    pub adapter_luid: u64,
    pub physical_width_mm: u32,
    pub physical_height_mm: u32,
    pub friendly_name: [u16; 32],
    pub flags: u32,
    pub max_nits: u32,
    /// Effective lease timeout; `u32::MAX` never expires.
    pub lease_timeout_ms: u32,
    pub created_ms: u64,
    pub last_ping_ms: u64,
    /// Ring telemetry, kept current by the frame workers.
    pub ring_generation: u32,
    pub ring_state: u32,
    pub latest_sequence: u64,
    pub frames_published: u64,
    pub frames_dropped: u64,
    /// Last error recorded against this monitor (sticky until destroy).
    pub last_error: i32,
}

impl View for Monitor {
    type V = MonitorModel;

    open spec fn view(&self) -> MonitorModel {
        MonitorModel {
            session_id: self.session_id,
            display_id: self.display_id,
            ephemeral_identity: self.ephemeral_identity,
            connector_index: self.connector_index,
            edid_serial: self.edid_serial,
            derived_serial: self.derived_serial,
            product_code: self.product_code,
            modes: self.modes@,
            target_modes: self.target_modes@,
            pending: match self.pending_targets {
                Some(p) => Some(PendingModel { seq: p.seq, targets: p.targets@ }),
                None => None,
            },
            refusal: match self.refusal {
                Some(r) => Some(
                    RefusalModel {
                        targets: r.targets@,
                        superset_idx: r.superset_idx,
                        token: r.token,
                    },
                ),
                None => None,
            },
            update_floor: self.update_floor,
            adapter_luid: self.adapter_luid,
            physical_width_mm: self.physical_width_mm,
            physical_height_mm: self.physical_height_mm,
            friendly_name: self.friendly_name,
            flags: self.flags,
            max_nits: self.max_nits,
            lease_timeout_ms: self.lease_timeout_ms,
            created_ms: self.created_ms,
            last_ping_ms: self.last_ping_ms,
            ring_generation: self.ring_generation,
            ring_state: self.ring_state,
            latest_sequence: self.latest_sequence,
            frames_published: self.frames_published,
            frames_dropped: self.frames_dropped,
            last_error: self.last_error,
        }
    }
}

impl Monitor {
    /// The first mode the monitor describes.
    pub fn preferred_mode(&self) -> (r: &Mode)
        requires
            self@.modes.len() > 0,
        ensures
            *r == self@.modes[0],
    {
        &self.modes[0]
    }

    fn expired(&self, now_ms: u64) -> (r: bool)
        ensures
            r == self@.expired(now_ms),
    {
        self.lease_timeout_ms != LEASE_TIMEOUT_DISABLED && now_ms.saturating_sub(self.last_ping_ms)
            > self.lease_timeout_ms as u64
    }

    fn status(&self) -> (r: MonitorStatus)
        requires
            self@.modes.len() > 0,
        ensures
            r == self@.status(),
    {
        let pref = self.preferred_mode();
        MonitorStatus {
            session_id: self.session_id,
            display_id: self.display_id,
            adapter_luid: self.adapter_luid,
            latest_sequence: self.latest_sequence,
            frames_published: self.frames_published,
            frames_dropped: self.frames_dropped,
            last_ping_ms: self.last_ping_ms,
            width: pref.width,
            height: pref.height,
            refresh_millihz: pref.refresh_millihz,
            bit_depth: pref.bit_depth.as_raw(),
            hdr: if pref.hdr {
                1
            } else {
                0
            },
            ring_generation: self.ring_generation,
            ring_state: self.ring_state,
            last_error: self.last_error,
            connector_index: self.connector_index,
            lease_timeout_ms: self.lease_timeout_ms,
        }
    }
}

fn clamp(v: u32, lo: u32, hi: u32) -> (r: u32)
    requires
        lo <= hi,
    ensures
        r == clamped(v as int, lo as int, hi as int),
{
    if v < lo {
        lo
    } else if v > hi {
        hi
    } else {
        v
    }
}

/// Resolve the requested lease timeout against the driver default, where a
/// `watchdog_secs` of 0 means that the watchdog is disabled.
pub fn effective_lease_timeout(requested_ms: u32, watchdog_secs: u32) -> (r: u32)
    ensures
        r == lease_timeout(requested_ms, watchdog_secs),
{
    if requested_ms == LEASE_TIMEOUT_USE_DEFAULT {
        if watchdog_secs == 0 {
            LEASE_TIMEOUT_DISABLED
        } else {
            let ms: u32 = match watchdog_secs.checked_mul(1000) {
                Some(ms) => ms,
                None => u32::MAX,
            };
            clamp(ms, DEFAULT_LEASE_TIMEOUT_MS, MAX_LEASE_TIMEOUT_MS)
        }
    } else if requested_ms == LEASE_TIMEOUT_DISABLED {
        LEASE_TIMEOUT_DISABLED
    } else {
        clamp(requested_ms, MIN_LEASE_TIMEOUT_MS, MAX_LEASE_TIMEOUT_MS)
    }
}

/// The answer to a mode update.
#[derive(Clone, Debug)]
pub struct ModeUpdate {
    /// The list that is queued, or the one in force where nothing is.
    pub targets: Vec<Mode>,
    /// Requested modes the monitor describes.
    pub accepted: usize,
    /// Requested modes the monitor does not describe.
    pub rejected: usize,
    pub first_rejected: Option<usize>,
    /// An update is on its way.
    pub pending: bool,
    /// Nothing requested exists on the monitor.
    pub refused: bool,
    /// The request gates out the committed mode, which stands here in the
    /// monitor's description.
    pub blocked: Option<u32>,
    /// This request is the update on its way, under this number.
    pub queued: Option<u64>,
}

impl View for ModeUpdate {
    type V = UpdateModel;

    open spec fn view(&self) -> UpdateModel {
        UpdateModel {
            targets: self.targets@,
            accepted: self.accepted as nat,
            rejected: self.rejected as nat,
            first_rejected: self.first_rejected,
            pending: self.pending,
            refused: self.refused,
            blocked: self.blocked,
            queued: self.queued,
        }
    }
}

/// The monitor table and its policy knobs.
pub struct SessionTable {
    max_monitors: u32,
    watchdog_secs: u32,
    monitors: IdMap<Monitor>,
    connectors: ConnectorTable,
    next_update_seq: u64,
}

impl View for SessionTable {
    type V = TableModel;

    closed spec fn view(&self) -> TableModel {
        TableModel {
            max_monitors: self.max_monitors,
            watchdog_secs: self.watchdog_secs,
            monitors: self.monitors@.map_values(|m: Monitor| m@),
            connectors: self.connectors@,
            next_update_seq: self.next_update_seq,
        }
    }
}

impl SessionTable {
    pub closed spec fn wf(&self) -> bool {
        self.monitors.wf() && self.connectors.wf() && self@.wf()
    }

    /// A table in order has a model in order.
    pub proof fn lemma_wf(&self)
        requires
            self.wf(),
        ensures
            self@.wf(),
    {
    }

    /// The cap is clamped to the ceiling and doubles as the number of connectors.
    pub fn new(max_monitors: u32, watchdog_secs: u32) -> (r: Self)
        ensures
            r.wf(),
            r@.max_monitors == clamped(max_monitors as int, 0, ABI_MAX_MONITORS as int),
            r@.watchdog_secs == watchdog_secs,
            r@.monitors == Map::<u64, MonitorModel>::empty(),
            r@.connectors == (ConnectorModel {
                max_connectors: r@.max_monitors,
                reservations: Map::empty(),
                next_age: 0,
            }),
            r@.next_update_seq == 0,
    {
        let max_monitors: u32 = if max_monitors > ABI_MAX_MONITORS {
            ABI_MAX_MONITORS
        } else {
            max_monitors
        };
        let r = SessionTable {
            max_monitors,
            watchdog_secs,
            monitors: IdMap::new(),
            connectors: ConnectorTable::new(max_monitors),
            next_update_seq: 0,
        };
        proof {
            r.connectors.lemma_wf();
            assert(r@.monitors =~= Map::<u64, MonitorModel>::empty());
        }
        r
    }

    pub fn len(&self) -> (r: usize)
        requires
            self.wf(),
        ensures
            r == self@.monitors.dom().len(),
    {
        assert(self@.monitors.dom() =~= self.monitors@.dom());
        self.monitors.len()
    }

    /// Whether the counters have room for one more request.
    pub fn has_room(&self) -> (r: bool)
        ensures
            r == (self@.connectors.next_age < u64::MAX - 8 && self@.next_update_seq < u64::MAX),
    {
        self.connectors.next_age() < u64::MAX - 8 && self.next_update_seq < u64::MAX
    }

    pub fn is_empty(&self) -> (r: bool)
        requires
            self.wf(),
        ensures
            r == (self@.monitors.dom().len() == 0),
    {
        self.len() == 0
    }

    pub fn get(&self, session_id: u64) -> (r: Option<&Monitor>)
        requires
            self.wf(),
        ensures
            r is Some <==> self@.monitors.dom().contains(session_id),
            r matches Some(m) ==> m@ == self@.monitors[session_id] && m@.wf(),
    {
        assert(self@.monitors.dom().contains(session_id) ==> self@.monitor_ok(session_id));
        self.monitors.get(session_id)
    }

    /// Every monitor, in ascending order of session.
    pub fn monitors(&self) -> (r: &[Monitor])
        requires
            self.wf(),
        ensures
            r@.map_values(|m: Monitor| m@) == self@.in_order(self@.monitors.dom()),
    {
        let r = self.monitors.values();
        proof {
            self.monitors.lemma_ids();
            assert(self@.monitors.dom() =~= self.monitors@.dom());
            assert(r@.map_values(|m: Monitor| m@) =~= self@.in_order(self@.monitors.dom()));
        }
        r
    }

    /// The identities with a live monitor.
    fn live(&self) -> (r: Vec<u64>)
        requires
            self.wf(),
        ensures
            r@.to_set() == self@.live_identities(),
    {
        let mut out: Vec<u64> = Vec::new();
        let mut i: usize = 0;
        proof {
            self.monitors.lemma_ids();
        }
        while i < self.monitors.len()
            invariant
                self.monitors.wf(),
                i <= self.monitors.ids().len(),
                out@.len() == i,
                forall|j: int|
                    0 <= j < i ==> #[trigger] out@[j]
                        == self.monitors@[self.monitors.ids()[j]].display_id,
            decreases self.monitors.ids().len() - i,
        {
            out.push(self.monitors.at(i).display_id);
            i += 1;
        }
        proof {
            assert forall|d: u64| out@.to_set().contains(d) == self@.live_identities().contains(d) by {
                if out@.contains(d) {
                    let j = out@.index_of(d);
                    assert(out@[j] == d);
                    let s = self.monitors.ids()[j];
                    assert(self@.monitors.dom().contains(s));
                    assert(self@.monitors[s].display_id == d);
                }
                if self@.live_identities().contains(d) {
                    let s = choose|s: u64| #[trigger]
                        self@.monitors.dom().contains(s) && self@.monitors[s].display_id == d;
                    assert(self.monitors@.dom().contains(s));
                    let j = self.monitors.ids().index_of(s);
                    assert(self.monitors.ids()[j] == s);
                    assert(out@[j] == d);
                }
            }
            assert(out@.to_set() =~= self@.live_identities());
        }
        out
    }

    /// Validate and create a monitor, reserved identities included: for
    /// requests made by the driver itself, never for host input.
    pub fn create_trusted(
        &mut self,
        now_ms: u64,
        req: &CreateMonitorRequest,
        drv_caps: u32,
        adapters: &[AdapterInfo],
        preferred_adapter: u64,
    ) -> (r: Result<&Monitor, CoreError>)
        requires
            old(self).wf(),
            old(self)@.connectors.next_age < u64::MAX,
        ensures
            final(self).wf(),
            final(self)@ == old(self)@.after_create(
                now_ms,
                *req,
                drv_caps,
                adapters@,
                preferred_adapter,
            ),
            r matches Ok(m) ==> m@ == old(self)@.new_monitor(
                now_ms,
                *req,
                drv_caps,
                adapters@,
                preferred_adapter,
            ) && m@.wf(),
            old(self)@.create_refusal(*req, drv_caps, adapters@, preferred_adapter) == (match r {
                Ok(_) => None::<CoreError>,
                Err(e) => Some(e),
            }),
    {
        let ghost before = self@;
        if req.session_id == 0 {
            return Err(CoreError::BadMode);
        }
        if self.monitors.contains_key(req.session_id) {
            return Err(CoreError::DuplicateSession);
        }
        if self.len() as u32 >= self.max_monitors {
            return Err(CoreError::MaxMonitors);
        }
        let ephemeral: bool = req.display_id == 0 || req.flags & create_flags::EPHEMERAL_IDENTITY != 0;
        let display_id: u64 = if ephemeral {
            ephemeral_display_id(req.session_id)
        } else {
            req.display_id
        };
        let active: Vec<u64> = self.live();
        if crate::identity::holds_id(active.as_slice(), display_id) {
            return Err(CoreError::IdentityInUse);
        }
        let modes: Vec<Mode> = match Mode::validate_list(
            req.modes.as_slice(),
            req.mode_count,
            req.bit_depth,
            req.hdr,
            drv_caps,
        ) {
            Ok(m) => m,
            Err(e) => return Err(e),
        };
        let adapter_luid: u64 = if req.adapter_luid != 0 {
            match select_adapter(adapters, req.adapter_luid) {
                Ok(luid) => luid,
                Err(e) => return Err(e),
            }
        } else if preferred_adapter != 0 && select_adapter(adapters, preferred_adapter).is_ok() {
            preferred_adapter
        } else {
            match select_adapter(adapters, 0) {
                Ok(luid) => luid,
                Err(e) => return Err(e),
            }
        };
        proof {
            lemma_connector_available(before, display_id);
        }
        let connector_index: u32 = match self.connectors.acquire(display_id, active.as_slice()) {
            Some(c) => c,
            None => return Err(CoreError::MaxMonitors),
        };
        let product_code: u16 = if is_permanent_display_id(display_id) {
            permanent_product_code((display_id % 0x1_0000_0000) as u32)
        } else {
            temporary_product_code(connector_index)
        };
        let edid_serial: u32 = if req.edid_serial != 0 {
            req.edid_serial
        } else {
            serial_from_display_id(display_id)
        };
        let target_modes: Vec<Mode> = copy_modes(modes.as_slice());
        let monitor = Monitor {
            session_id: req.session_id,
            display_id,
            ephemeral_identity: ephemeral,
            connector_index,
            edid_serial,
            derived_serial: req.edid_serial == 0,
            product_code,
            modes,
            target_modes,
            pending_targets: None,
            refusal: None,
            update_floor: self.next_update_seq,
            adapter_luid,
            physical_width_mm: req.physical_width_mm,
            physical_height_mm: req.physical_height_mm,
            friendly_name: req.friendly_name,
            flags: req.flags,
            max_nits: req.max_nits,
            lease_timeout_ms: effective_lease_timeout(req.lease_timeout_ms, self.watchdog_secs),
            created_ms: now_ms,
            // Creation counts as the first ping.
            last_ping_ms: now_ms,
            ring_generation: 1,
            ring_state: ring_state::ACTIVE,
            latest_sequence: 0,
            frames_published: 0,
            frames_dropped: 0,
            last_error: err::OK,
        };
        let ghost model = monitor@;
        self.monitors.insert(req.session_id, monitor);
        proof {
            self.connectors.lemma_wf();
            lemma_created_wf(before, now_ms, *req, drv_caps, adapters@, preferred_adapter);
            assert(model == before.new_monitor(now_ms, *req, drv_caps, adapters@, preferred_adapter));
            assert(self@.monitors =~= before.monitors.insert(req.session_id, model));
            assert(self@ == before.created(now_ms, *req, drv_caps, adapters@, preferred_adapter));
            assert(self@.monitor_ok(req.session_id));
        }
        match self.monitors.get(req.session_id) {
            Some(m) => Ok(m),
            None => Err(CoreError::Internal),
        }
    }

    /// Validate and create a monitor for a host. The reserved identity ranges are
    /// out of its reach.
    pub fn create(
        &mut self,
        now_ms: u64,
        req: &CreateMonitorRequest,
        drv_caps: u32,
        adapters: &[AdapterInfo],
        preferred_adapter: u64,
    ) -> (r: Result<&Monitor, CoreError>)
        requires
            old(self).wf(),
            old(self)@.connectors.next_age < u64::MAX,
        ensures
            final(self).wf(),
            reserved_identity(req.display_id) ==> r == Err::<&Monitor, CoreError>(
                CoreError::IdentityInUse,
            ) && final(self)@ == old(self)@,
            !reserved_identity(req.display_id) ==> final(self)@ == old(self)@.after_create(
                now_ms,
                *req,
                drv_caps,
                adapters@,
                preferred_adapter,
            ),
            r matches Ok(m) ==> m@ == old(self)@.new_monitor(
                now_ms,
                *req,
                drv_caps,
                adapters@,
                preferred_adapter,
            ) && m@.wf(),
            !reserved_identity(req.display_id) ==> old(self)@.create_refusal(
                *req,
                drv_caps,
                adapters@,
                preferred_adapter,
            ) == (match r {
                Ok(_) => None::<CoreError>,
                Err(e) => Some(e),
            }),
    {
        if req.display_id >= EPHEMERAL_DISPLAY_ID_BASE || is_permanent_display_id(req.display_id) {
            return Err(CoreError::IdentityInUse);
        }
        self.create_trusted(now_ms, req, drv_caps, adapters, preferred_adapter)
    }

    /// End one session. A stable identity keeps its connector, a throwaway one
    /// gives it up.
    pub fn destroy(&mut self, session_id: u64) -> (r: Result<Monitor, CoreError>)
        requires
            old(self).wf(),
        ensures
            final(self).wf(),
            r is Ok <==> old(self)@.monitors.dom().contains(session_id),
            r matches Ok(m) ==> m@ == old(self)@.monitors[session_id] && final(self)@ == old(
                self,
            )@.without_sessions(set![session_id]),
            r matches Err(e) ==> e == CoreError::NoSuchSession && final(self)@ == old(self)@,
    {
        let ghost before = self@;
        match self.monitors.remove(session_id) {
            None => {
                assert(self@.monitors =~= before.monitors);
                Err(CoreError::NoSuchSession)
            },
            Some(m) => {
                if m.ephemeral_identity {
                    self.connectors.release(m.display_id);
                }
                proof {
                    let after = before.without_sessions(set![session_id]);
                    lemma_without_sessions_wf(before, set![session_id]);
                    assert(self@.monitors =~= after.monitors);
                    let gone = before.throwaway_identities(set![session_id]);
                    assert(set![session_id].contains(session_id));
                    assert forall|d: u64| gone.contains(d) == (m.ephemeral_identity && d
                        == m.display_id) by {}
                    assert(self@.connectors.reservations =~= after.connectors.reservations);
                }
                Ok(m)
            },
        }
    }

    /// End the sessions in `dead` one after the other.
    fn end_sessions(&mut self, dead: &[u64]) -> (r: Vec<Monitor>)
        requires
            old(self).wf(),
            crate::idmap::ascending(dead@),
            forall|i: int|
                0 <= i < dead@.len() ==> old(self)@.monitors.dom().contains(#[trigger] dead@[i]),
        ensures
            final(self).wf(),
            final(self)@ == old(self)@.without_sessions(dead@.to_set()),
            r@.map_values(|m: Monitor| m@) == old(self)@.in_order(dead@.to_set()),
            r@.len() == dead@.len(),
            forall|i: int| 0 <= i < r@.len() ==> (#[trigger] r@[i])@ == old(self)@.monitors[dead@[i]],
    {
        let ghost before = self@;
        let mut out: Vec<Monitor> = Vec::new();
        let mut i: usize = 0;
        proof {
            assert(dead@.take(0).to_set() =~= Set::<u64>::empty());
            assert(before.without_sessions(Set::empty()).monitors =~= before.monitors);
            assert(before.throwaway_identities(Set::empty()) =~= Set::<u64>::empty());
            assert(before.without_sessions(Set::empty()).connectors.reservations
                =~= before.connectors.reservations);
        }
        while i < dead.len()
            invariant
                self.wf(),
                before == old(self)@,
                before.wf(),
                i <= dead@.len(),
                crate::idmap::ascending(dead@),
                forall|j: int|
                    0 <= j < dead@.len() ==> before.monitors.dom().contains(#[trigger] dead@[j]),
                self@ == before.without_sessions(dead@.take(i as int).to_set()),
                out@.len() == i,
                forall|j: int| 0 <= j < i ==> (#[trigger] out@[j])@ == before.monitors[dead@[j]],
            decreases dead@.len() - i,
        {
            let s: u64 = dead[i];
            let ghost so_far = dead@.take(i as int).to_set();
            proof {
                assert(!dead@.take(i as int).contains(s));
                lemma_without_sessions_step(before, so_far, s);
                assert(dead@.take(i + 1).to_set() =~= so_far.insert(s)) by {
                    assert forall|k: u64| dead@.take(i + 1).to_set().contains(k) == so_far.insert(
                        s,
                    ).contains(k) by {
                        if dead@.take(i + 1).contains(k) {
                            let p = dead@.take(i + 1).index_of(k);
                            if p < i {
                                assert(dead@.take(i as int)[p] == k);
                            }
                        }
                        if dead@.take(i as int).contains(k) {
                            let p = dead@.take(i as int).index_of(k);
                            assert(dead@.take(i + 1)[p] == k);
                        }
                        assert(dead@.take(i + 1)[i as int] == s);
                    }
                }
            }
            if let Ok(m) = self.destroy(s) {
                out.push(m);
            }
            i += 1;
        }
        proof {
            assert(dead@.take(i as int) =~= dead@);
            crate::idmap::lemma_sorted_ids(dead@);
            assert(out@.map_values(|m: Monitor| m@) =~= before.in_order(dead@.to_set()));
        }
        out
    }

    /// End every session. Stable identities keep their connectors.
    pub fn destroy_all(&mut self)
        requires
            old(self).wf(),
        ensures
            final(self).wf(),
            final(self)@ == old(self)@.without_sessions(old(self)@.monitors.dom()),
            final(self)@.monitors.dom().len() == 0,
    {
        let ghost before = self@;
        let mut dead: Vec<u64> = Vec::new();
        let mut i: usize = 0;
        proof {
            self.monitors.lemma_ids();
        }
        while i < self.monitors.len()
            invariant
                self.monitors.wf(),
                *self == *old(self),
                i <= self.monitors.ids().len(),
                dead@ == self.monitors.ids().take(i as int),
            decreases self.monitors.ids().len() - i,
        {
            dead.push(self.monitors.key_at(i));
            i += 1;
            assert(dead@ =~= self.monitors.ids().take(i as int));
        }
        assert(dead@ =~= self.monitors.ids());
        assert(self@.monitors.dom() =~= self.monitors@.dom());
        let _ = self.end_sessions(dead.as_slice());
        assert(self@.monitors.dom() =~= Set::<u64>::empty());
    }

    /// Watchdog sweep: end every session whose lease has run out, and return their
    /// monitors in ascending order of session.
    pub fn tick(&mut self, now_ms: u64) -> (r: Vec<Monitor>)
        requires
            old(self).wf(),
        ensures
            final(self).wf(),
            final(self)@ == old(self)@.without_sessions(old(self)@.expired_sessions(now_ms)),
            r@.map_values(|m: Monitor| m@) == old(self)@.in_order(
                old(self)@.expired_sessions(now_ms),
            ),
    {
        let mut dead: Vec<u64> = Vec::new();
        let mut i: usize = 0;
        let ghost ids = self.monitors.ids();
        proof {
            self.monitors.lemma_ids();
        }
        while i < self.monitors.len()
            invariant
                self.monitors.wf(),
                *self == *old(self),
                ids == self.monitors.ids(),
                crate::idmap::ascending(ids),
                i <= ids.len(),
                crate::idmap::ascending(dead@),
                forall|j: int| 0 <= j < dead@.len() && i < ids.len() ==> #[trigger] dead@[j] < ids[i as int],
                forall|j: int| 0 <= j < dead@.len() ==> ids.contains(#[trigger] dead@[j]),
                forall|j: int|
                    0 <= j < dead@.len() ==> self.monitors@[#[trigger] dead@[j]]@.expired(now_ms),
                forall|j: int|
                    0 <= j < i && self.monitors@[#[trigger] ids[j]]@.expired(now_ms)
                        ==> dead@.contains(ids[j]),
            decreases ids.len() - i,
        {
            let ghost was = dead@;
            let s: u64 = self.monitors.key_at(i);
            if self.monitors.at(i).expired(now_ms) {
                dead.push(s);
                assert(dead@[dead@.len() - 1] == s);
            }
            assert forall|k: u64| was.contains(k) implies dead@.contains(k) by {
                let p = was.index_of(k);
                assert(dead@[p] == k);
            }
            i += 1;
        }
        proof {
            let want = self@.expired_sessions(now_ms);
            assert(self@.monitors.dom() =~= self.monitors@.dom());
            assert forall|s: u64| dead@.to_set().contains(s) == want.contains(s) by {
                if dead@.contains(s) {
                    let j = dead@.index_of(s);
                    assert(ids.contains(dead@[j]));
                    assert(self.monitors@.dom().contains(s));
                }
                if want.contains(s) {
                    assert(self.monitors@.dom().contains(s));
                    let j = ids.index_of(s);
                    assert(ids[j] == s);
                }
            }
            assert(dead@.to_set() =~= want);
            assert forall|j: int| 0 <= j < dead@.len() implies self@.monitors.dom().contains(
                #[trigger] dead@[j],
            ) by {
                assert(dead@.to_set().contains(dead@[j]));
            }
        }
        self.end_sessions(dead.as_slice())
    }

    /// Change a live monitor. The table stays in order as long as what is put there
    /// belongs there, see `lemma_with_monitor_wf`.
    pub fn get_mut(&mut self, session_id: u64) -> (r: Option<&mut Monitor>)
        requires
            old(self).wf(),
        ensures
            r is Some <==> old(self)@.monitors.dom().contains(session_id),
            r matches Some(m) ==> m@ == old(self)@.monitors[session_id] && final(self)@ == old(
                self,
            )@.with_monitor(session_id, final(m)@),
            r is None ==> final(self)@ == old(self)@,
            final(self)@.wf() ==> final(self).wf(),
    {
        proof {
            let f = |m: Monitor| m@;
            let ms = self.monitors@;
            assert forall|v: Monitor| #[trigger]
                ms.insert(session_id, v).map_values(f) == ms.map_values(f).insert(session_id, v@) by {
                assert(ms.insert(session_id, v).map_values(f) =~= ms.map_values(f).insert(
                    session_id,
                    v@,
                ));
            }
        }
        self.monitors.get_mut(session_id)
    }

    /// Put back connector reservations stored before a restart. A live monitor cannot be
    /// moved to another connector.
    pub fn restore_reservations(&mut self, entries: &[(u64, u32)])
        requires
            old(self).wf(),
            forall|i: int|
                0 <= i < entries@.len() && old(self)@.live_identities().contains(
                    (#[trigger] entries@[i]).0,
                ) ==> entries@[i].1 == old(self)@.connectors.reservations[entries@[i].0].connector,
            old(self)@.connectors.next_age + entries@.len() <= u64::MAX,
        ensures
            final(self).wf(),
            final(self)@ == (TableModel {
                connectors: old(self)@.connectors.restored(entries@),
                ..old(self)@
            }),
    {
        let ghost before = self@;
        self.connectors.restore(entries);
        proof {
            self.connectors.lemma_wf();
            lemma_restored_wf(before, entries@);
        }
    }

    /// Current connector reservations, in ascending order of identity.
    pub fn reservations(&self) -> (r: Vec<(u64, u32)>)
        requires
            self.wf(),
        ensures
            r@ == self@.connectors.listing(),
            r@.len() == self@.connectors.reservations.dom().len(),
    {
        self.connectors.reservations()
    }

    /// The handshake reply. Whether the versions agree is for the caller to decide;
    /// the reply describes this driver either way.
    pub fn handshake_reply(&self, drv_caps: u32, driver_build: u32) -> (r: HandshakeReply)
        ensures
            r == (HandshakeReply {
                driver_proto_major: PROTO_VERSION_MAJOR,
                driver_proto_minor: PROTO_VERSION_MINOR,
                driver_build,
                caps: drv_caps,
                max_monitors: self@.max_monitors,
                watchdog_secs: self@.watchdog_secs,
            }),
    {
        HandshakeReply {
            driver_proto_major: PROTO_VERSION_MAJOR,
            driver_proto_minor: PROTO_VERSION_MINOR,
            driver_build,
            caps: drv_caps,
            max_monitors: self.max_monitors,
            watchdog_secs: self.watchdog_secs,
        }
    }

    /// Feed the lease of one session.
    pub fn ping(&mut self, now_ms: u64, session_id: u64) -> (r: Result<(), CoreError>)
        requires
            old(self).wf(),
        ensures
            final(self).wf(),
            final(self)@ == old(self)@.pinged(now_ms, session_id),
            r == (if old(self)@.monitors.dom().contains(session_id) {
                Ok::<(), CoreError>(())
            } else {
                Err(CoreError::NoSuchSession)
            }),
    {
        let ghost before = self@;
        proof {
            if before.monitors.dom().contains(session_id) {
                assert(before.monitor_ok(session_id));
                lemma_with_monitor_wf(
                    before,
                    session_id,
                    MonitorModel { last_ping_ms: now_ms, ..before.monitors[session_id] },
                );
            }
        }
        match self.get_mut(session_id) {
            Some(m) => {
                m.last_ping_ms = now_ms;
                Ok(())
            },
            None => Err(CoreError::NoSuchSession),
        }
    }

    /// What a lease holds: identity, connector, remaining milliseconds.
    pub fn query_lease(&self, now_ms: u64, session_id: u64) -> (r: Result<(u64, u32, u32), CoreError>)
        requires
            self.wf(),
        ensures
            r == self@.lease(now_ms, session_id),
    {
        match self.monitors.get(session_id) {
            Some(m) => {
                let remaining: u32 = if m.lease_timeout_ms == LEASE_TIMEOUT_DISABLED {
                    u32::MAX
                } else {
                    let elapsed: u64 = now_ms.saturating_sub(m.last_ping_ms);
                    (m.lease_timeout_ms as u64).saturating_sub(elapsed) as u32
                };
                Ok((m.display_id, m.connector_index, remaining))
            },
            None => Err(CoreError::NoSuchSession),
        }
    }

    /// The status reply.
    pub fn status(&self, uptime_ms: u64, driver_build: u32, drv_caps: u32) -> (r: GetStatusReply)
        requires
            self.wf(),
        ensures
            r.uptime_ms == uptime_ms,
            r.driver_build == driver_build,
            r.proto_major == PROTO_VERSION_MAJOR,
            r.proto_minor == PROTO_VERSION_MINOR,
            r.caps == drv_caps,
            r.max_monitors == self@.max_monitors,
            r.watchdog_secs == self@.watchdog_secs,
            r.monitor_count == self@.monitors.dom().len(),
            r.monitors@ == self@.status_entries(),
    {
        let mut entries: [MonitorStatus; 16] = [MonitorStatus::zero(); 16];
        let mut i: usize = 0;
        let ghost ids = self.monitors.ids();
        proof {
            self.monitors.lemma_ids();
            assert(self@.monitors.dom() =~= self.monitors@.dom());
        }
        let n: usize = self.len();
        while i < n
            invariant
                self.wf(),
                n == ids.len() == self@.monitors.dom().len(),
                ids == self.monitors.ids(),
                ids == sorted_ids(self@.monitors.dom()),
                i <= n <= 16,
                entries@.len() == 16,
                forall|j: int| 0 <= j < i ==> #[trigger] entries@[j] == self@.status_entries()[j],
                forall|j: int| i <= j < 16 ==> #[trigger] entries@[j] == zero_monitor_status(),
            decreases n - i,
        {
            let m = self.monitors.at(i);
            proof {
                assert(self@.monitors.dom().contains(ids[i as int]));
                assert(self@.monitor_ok(ids[i as int]));
            }
            entries[i] = m.status();
            i += 1;
        }
        assert(entries@ =~= self@.status_entries());
        GetStatusReply {
            uptime_ms,
            driver_build,
            proto_major: PROTO_VERSION_MAJOR,
            proto_minor: PROTO_VERSION_MINOR,
            caps: drv_caps,
            max_monitors: self.max_monitors,
            watchdog_secs: self.watchdog_secs,
            monitor_count: n as u32,
            monitors: entries,
        }
    }

    /// Ask for another target list on a live monitor. Nothing is in force until
    /// `settle_modes` hears that the push succeeded. `commit_token` stands for what
    /// is committed now: a remembered refusal counts only while it has not moved.
    pub fn update_modes(
        &mut self,
        session_id: u64,
        specs: &[ModeSpec],
        drv_caps: u32,
        commit_token: u64,
    ) -> (r: Result<ModeUpdate, CoreError>)
        requires
            old(self).wf(),
            old(self)@.next_update_seq < u64::MAX,
        ensures
            final(self).wf(),
            match old(self)@.requested_modes(session_id, specs@, drv_caps) {
                Err(e) => r == Err::<ModeUpdate, CoreError>(e) && final(self)@ == old(self)@,
                Ok(requested) => {
                    &&& r matches Ok(u)
                    &&& u@ == old(self)@.update_answer(session_id, requested, commit_token)
                    &&& final(self)@ == old(self)@.after_update(session_id, requested, commit_token)
                },
            },
    {
        let ghost before = self@;
        let m = match self.monitors.get(session_id) {
            Some(m) => m,
            None => return Err(CoreError::NoSuchSession),
        };
        assert(before.monitor_ok(session_id));
        if specs.len() == 0 || specs.len() > MAX_MODES_PER_MONITOR as usize {
            return Err(CoreError::BadMode);
        }
        let preferred = m.modes[0];
        let hdr: u32 = if preferred.hdr {
            1
        } else {
            0
        };
        assert(specs@.take(specs@.len() as int) =~= specs@);
        let requested: Vec<Mode> = match Mode::validate_list(
            specs,
            specs.len() as u32,
            preferred.bit_depth.as_raw(),
            hdr,
            drv_caps,
        ) {
            Ok(v) => v,
            Err(e) => return Err(e),
        };
        let sel = Mode::select_targets(m.modes.as_slice(), requested.as_slice());
        let in_flight: bool = m.pending_targets.is_some();
        let chosen: bool = match &m.pending_targets {
            Some(p) => same_modes(p.targets.as_slice(), sel.targets.as_slice()),
            None => same_modes(m.target_modes.as_slice(), sel.targets.as_slice()),
        };
        let refused_idx: Option<u32> = match &m.refusal {
            Some(r) => if r.token == commit_token && same_modes(
                r.targets.as_slice(),
                sel.targets.as_slice(),
            ) {
                Some(r.superset_idx)
            } else {
                None
            },
            None => None,
        };
        let empty: bool = sel.is_empty();
        if empty || (!chosen && refused_idx.is_some()) {
            return Ok(
                ModeUpdate {
                    targets: copy_modes(m.target_modes.as_slice()),
                    accepted: sel.accepted,
                    rejected: sel.rejected,
                    first_rejected: sel.first_rejected,
                    pending: in_flight,
                    refused: empty,
                    blocked: if empty {
                        None
                    } else {
                        refused_idx
                    },
                    queued: None,
                },
            );
        }
        if chosen {
            return Ok(
                ModeUpdate {
                    targets: sel.targets,
                    accepted: sel.accepted,
                    rejected: sel.rejected,
                    first_rejected: sel.first_rejected,
                    pending: in_flight,
                    refused: false,
                    blocked: None,
                    queued: None,
                },
            );
        }
        let seq: u64 = self.next_update_seq;
        let targets: Vec<Mode> = copy_modes(sel.targets.as_slice());
        proof {
            let old_m = before.monitors[session_id];
            crate::modes::law_targets_within_supported(old_m.modes, requested@);
            let new_m = MonitorModel {
                pending: Some(PendingModel { seq, targets: targets@ }),
                ..old_m
            };
            assert forall|i: int| 0 <= i < targets@.len() implies old_m.modes.contains(
                #[trigger] targets@[i],
            ) by {
                assert(targets@.contains(targets@[i]));
            }
            let roomier = TableModel { next_update_seq: (seq + 1) as u64, ..before };
            assert forall|s: u64| #[trigger]
                roomier.monitors.dom().contains(s) implies roomier.monitor_ok(s) by {
                assert(before.monitor_ok(s));
            }
            lemma_with_monitor_wf(roomier, session_id, new_m);
        }
        self.next_update_seq = seq + 1;
        if let Some(m) = self.monitors.get_mut(session_id) {
            m.pending_targets = Some(PendingUpdate { seq, targets });
        }
        proof {
            let after = before.after_update(session_id, requested@, commit_token);
            assert(self@.monitors =~= after.monitors);
        }
        Ok(
            ModeUpdate {
                targets: sel.targets,
                accepted: sel.accepted,
                rejected: sel.rejected,
                first_rejected: sel.first_rejected,
                pending: true,
                refused: false,
                blocked: None,
                queued: Some(seq),
            },
        )
    }

    /// Hear what became of update `seq`, whose push put `targets` before the
    /// operating system.
    pub fn settle_modes(
        &mut self,
        session_id: u64,
        seq: u64,
        result: ModeUpdateResult,
        targets: &[Mode],
    ) -> (r: SettleOutcome)
        requires
            old(self).wf(),
        ensures
            final(self).wf(),
            r == old(self)@.settle_outcome(session_id, seq, result, targets@),
            final(self)@ == old(self)@.after_settle(session_id, seq, result, targets@),
    {
        let ghost before = self@;
        let outcome: SettleOutcome = match self.monitors.get(session_id) {
            None => SettleOutcome::Stale,
            Some(m) => match &m.pending_targets {
                None => SettleOutcome::Stale,
                Some(p) => if p.seq == seq {
                    SettleOutcome::Settled
                } else if matches!(result, ModeUpdateResult::Applied) && m.update_floor <= seq && seq
                    < p.seq && is_publishable(m.modes.as_slice(), targets) {
                    SettleOutcome::SupersededCommitted
                } else {
                    SettleOutcome::Stale
                },
            },
        };
        proof {
            if outcome != SettleOutcome::Stale {
                assert(before.monitor_ok(session_id));
                lemma_with_monitor_wf(
                    before,
                    session_id,
                    before.after_settle(session_id, seq, result, targets@).monitors[session_id],
                );
            }
        }
        match outcome {
            SettleOutcome::Stale => {},
            SettleOutcome::SupersededCommitted => {
                if let Some(m) = self.monitors.get_mut(session_id) {
                    m.target_modes = copy_modes(targets);
                    m.update_floor = seq + 1;
                }
            },
            SettleOutcome::Settled => {
                if let Some(m) = self.monitors.get_mut(session_id) {
                    if let Some(p) = m.pending_targets.take() {
                        m.update_floor = seq + 1;
                        match result {
                            ModeUpdateResult::Applied => {
                                m.target_modes = p.targets;
                            },
                            ModeUpdateResult::NotApplied => {
                                m.last_error = err::UPDATE_FAILED;
                            },
                            ModeUpdateResult::Blocked { superset_idx, token } => {
                                m.last_error = err::MODE_COMMITTED;
                                m.refusal =
                                Some(ModeRefusal { targets: p.targets, superset_idx, token });
                            },
                        }
                    }
                }
            },
        }
        proof {
            let after = before.after_settle(session_id, seq, result, targets@);
            assert(self@.monitors =~= after.monitors);
        }
        outcome
    }

    /// The list on its way to the operating system, if there is one.
    pub fn pending_targets(&self, session_id: u64) -> (r: Option<&[Mode]>)
        requires
            self.wf(),
        ensures
            r is Some <==> self@.monitors.dom().contains(session_id)
                && self@.monitors[session_id].pending is Some,
            r matches Some(t) ==> t@ == self@.monitors[session_id].pending->0.targets,
    {
        match self.monitors.get(session_id) {
            Some(m) => match &m.pending_targets {
                Some(p) => Some(p.targets.as_slice()),
                None => None,
            },
            None => None,
        }
    }
}

/// Whether a monitor describing `modes` may publish `targets`.
pub fn is_publishable(modes: &[Mode], targets: &[Mode]) -> (r: bool)
    ensures
        r == publishable(modes@, targets@),
{
    let mut i: usize = 0;
    while i < targets.len()
        invariant
            i <= targets@.len(),
            forall|j: int| 0 <= j < i ==> modes@.contains(#[trigger] targets@[j]),
        decreases targets@.len() - i,
    {
        if !holds_mode(modes, &targets[i]) {
            return false;
        }
        i += 1;
    }
    targets.len() > 0
}

} // verus!
