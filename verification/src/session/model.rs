//! What the session table holds, and what each request makes of it.
use vstd::prelude::*;

use crate::adapter::{selected_adapter, AdapterInfo};
use crate::error::CoreError;
use crate::identity::{
    ephemeral_id, folded_serial, in_permanent_range, product_code, ConnectorModel,
    EPHEMERAL_DISPLAY_ID_BASE, PERMANENT_PRODUCT_CODE_BASE, TEMPORARY_PRODUCT_CODE_BASE,
};
use crate::idmap::sorted_ids;
use crate::modes::{accepted_count, first_rejected, mode_list_of, modes_of, selected_targets, Mode};
use crate::proto::messages::zero_monitor_status;
use crate::proto::{create_flags, err, ring_state};
use crate::proto::{
    CreateMonitorRequest, ModeSpec, MonitorStatus, ABI_MAX_MONITORS, DEFAULT_LEASE_TIMEOUT_MS,
    LEASE_TIMEOUT_DISABLED, LEASE_TIMEOUT_USE_DEFAULT, MAX_LEASE_TIMEOUT_MS, MAX_MODES_PER_MONITOR,
    MIN_LEASE_TIMEOUT_MS,
};

verus! {

/// An update on its way.
pub struct PendingModel {
    pub seq: u64,
    pub targets: Seq<Mode>,
}

/// A remembered refusal.
pub struct RefusalModel {
    pub targets: Seq<Mode>,
    pub superset_idx: u32,
    pub token: u64,
}

/// What a monitor is.
pub struct MonitorModel {
    pub session_id: u64,
    pub display_id: u64,
    pub ephemeral_identity: bool,
    pub connector_index: u32,
    pub edid_serial: u32,
    /// The serial follows from the identity.
    pub derived_serial: bool,
    pub product_code: u16,
    pub modes: Seq<Mode>,
    pub target_modes: Seq<Mode>,
    pub pending: Option<PendingModel>,
    pub refusal: Option<RefusalModel>,
    pub update_floor: u64,
    pub adapter_luid: u64,
    pub physical_width_mm: u32,
    pub physical_height_mm: u32,
    pub friendly_name: [u16; 32],
    pub flags: u32,
    pub max_nits: u32,
    pub lease_timeout_ms: u32,
    pub created_ms: u64,
    pub last_ping_ms: u64,
    pub ring_generation: u32,
    pub ring_state: u32,
    pub latest_sequence: u64,
    pub frames_published: u64,
    pub frames_dropped: u64,
    pub last_error: i32,
}

/// A list that a monitor describing `modes` may publish.
pub open spec fn publishable(modes: Seq<Mode>, targets: Seq<Mode>) -> bool {
    &&& targets.len() > 0
    &&& forall|i: int| 0 <= i < targets.len() ==> modes.contains(#[trigger] targets[i])
}

impl MonitorModel {
    /// The monitor describes something, publishes part of it, and whatever is on
    /// its way is part of it too.
    pub open spec fn wf(self) -> bool {
        &&& self.session_id != 0
        &&& self.modes.len() > 0
        &&& publishable(self.modes, self.target_modes)
        &&& self.pending matches Some(p) ==> publishable(self.modes, p.targets) && self.update_floor
            <= p.seq
    }

    /// Silent for longer than its lease allows.
    pub open spec fn expired(self, now_ms: u64) -> bool {
        self.lease_timeout_ms != LEASE_TIMEOUT_DISABLED && now_ms - self.last_ping_ms
            > self.lease_timeout_ms
    }

    /// Milliseconds until it expires, `u32::MAX` when it never does.
    pub open spec fn lease_remaining(self, now_ms: u64) -> u32 {
        if self.lease_timeout_ms == LEASE_TIMEOUT_DISABLED {
            u32::MAX
        } else if now_ms <= self.last_ping_ms {
            self.lease_timeout_ms
        } else if now_ms - self.last_ping_ms >= self.lease_timeout_ms {
            0
        } else {
            (self.lease_timeout_ms - (now_ms - self.last_ping_ms)) as u32
        }
    }

    /// The entry a status query shows.
    pub open spec fn status(self) -> MonitorStatus {
        MonitorStatus {
            session_id: self.session_id,
            display_id: self.display_id,
            adapter_luid: self.adapter_luid,
            latest_sequence: self.latest_sequence,
            frames_published: self.frames_published,
            frames_dropped: self.frames_dropped,
            last_ping_ms: self.last_ping_ms,
            width: self.modes[0].width,
            height: self.modes[0].height,
            refresh_millihz: self.modes[0].refresh_millihz,
            bit_depth: self.modes[0].bit_depth.raw(),
            hdr: if self.modes[0].hdr { 1 } else { 0 },
            ring_generation: self.ring_generation,
            ring_state: self.ring_state,
            last_error: self.last_error,
            connector_index: self.connector_index,
            lease_timeout_ms: self.lease_timeout_ms,
        }
    }
}

/// `v` moved into `lo..=hi`.
pub open spec fn clamped(v: int, lo: int, hi: int) -> int {
    if v < lo {
        lo
    } else if v > hi {
        hi
    } else {
        v
    }
}

/// The lease timeout a request gets: its own within bounds, or the driver's
/// default, which is never below `DEFAULT_LEASE_TIMEOUT_MS`.
pub open spec fn lease_timeout(requested_ms: u32, watchdog_secs: u32) -> u32 {
    if requested_ms == LEASE_TIMEOUT_DISABLED {
        LEASE_TIMEOUT_DISABLED
    } else if requested_ms != LEASE_TIMEOUT_USE_DEFAULT {
        clamped(requested_ms as int, MIN_LEASE_TIMEOUT_MS as int, MAX_LEASE_TIMEOUT_MS as int) as u32
    } else if watchdog_secs == 0 {
        LEASE_TIMEOUT_DISABLED
    } else {
        clamped(
            watchdog_secs * 1000,
            DEFAULT_LEASE_TIMEOUT_MS as int,
            MAX_LEASE_TIMEOUT_MS as int,
        ) as u32
    }
}

/// What a session table holds.
pub struct TableModel {
    pub max_monitors: u32,
    pub watchdog_secs: u32,
    pub monitors: Map<u64, MonitorModel>,
    pub connectors: ConnectorModel,
    pub next_update_seq: u64,
}

impl TableModel {
    /// A monitor stands under its own session, holds the connector reserved for its
    /// identity, and shows itself as its identity and connector say.
    pub open spec fn monitor_ok(self, session_id: u64) -> bool {
        let m = self.monitors[session_id];
        &&& m.wf()
        &&& m.session_id == session_id
        &&& self.connectors.reservations.dom().contains(m.display_id)
        &&& self.connectors.reservations[m.display_id].connector == m.connector_index
        &&& m.product_code == product_code_for(m.display_id, m.connector_index)
        &&& m.derived_serial ==> m.edid_serial == folded_serial(m.display_id)
        &&& m.update_floor <= self.next_update_seq
        &&& m.pending matches Some(p) ==> p.seq < self.next_update_seq
    }

    /// Within the cap, every monitor in order, no identity live twice.
    pub open spec fn wf(self) -> bool {
        &&& self.max_monitors <= ABI_MAX_MONITORS
        &&& self.connectors.max_connectors == self.max_monitors
        &&& self.connectors.wf()
        &&& self.monitors.dom().finite()
        &&& self.monitors.dom().len() <= self.max_monitors
        &&& forall|s: u64| #[trigger] self.monitors.dom().contains(s) ==> self.monitor_ok(s)
        &&& forall|a: u64, b: u64|
            #![trigger self.monitors[a], self.monitors[b]]
            self.monitors.dom().contains(a) && self.monitors.dom().contains(b) && a != b
                ==> self.monitors[a].display_id != self.monitors[b].display_id
    }

    /// The identities with a live monitor.
    pub open spec fn live_identities(self) -> Set<u64> {
        Set::new(
            |d: u64|
                exists|s: u64| #[trigger]
                    self.monitors.dom().contains(s) && self.monitors[s].display_id == d,
        )
    }

    /// The throwaway identities of the sessions in `dead`.
    pub open spec fn throwaway_identities(self, dead: Set<u64>) -> Set<u64> {
        Set::new(
            |d: u64|
                exists|s: u64| #[trigger]
                    dead.contains(s) && self.monitors.dom().contains(s)
                        && self.monitors[s].ephemeral_identity && self.monitors[s].display_id == d,
        )
    }

    /// The table after the sessions in `dead` have ended: their monitors are gone,
    /// their throwaway identities give up their connectors, stable ones keep them.
    pub open spec fn without_sessions(self, dead: Set<u64>) -> TableModel {
        TableModel {
            monitors: self.monitors.remove_keys(dead),
            connectors: ConnectorModel {
                reservations: self.connectors.reservations.remove_keys(
                    self.throwaway_identities(dead),
                ),
                ..self.connectors
            },
            ..self
        }
    }

    /// The table after a ping.
    pub open spec fn pinged(self, now_ms: u64, session_id: u64) -> TableModel {
        if self.monitors.dom().contains(session_id) {
            TableModel {
                monitors: self.monitors.insert(
                    session_id,
                    MonitorModel { last_ping_ms: now_ms, ..self.monitors[session_id] },
                ),
                ..self
            }
        } else {
            self
        }
    }

    /// What a lease holds: identity, connector, remaining milliseconds.
    pub open spec fn lease(self, now_ms: u64, session_id: u64) -> Result<(u64, u32, u32), CoreError> {
        if self.monitors.dom().contains(session_id) {
            let m = self.monitors[session_id];
            Ok((m.display_id, m.connector_index, m.lease_remaining(now_ms)))
        } else {
            Err(CoreError::NoSuchSession)
        }
    }

    /// The sessions whose lease has run out.
    pub open spec fn expired_sessions(self, now_ms: u64) -> Set<u64> {
        Set::new(
            |s: u64| self.monitors.dom().contains(s) && self.monitors[s].expired(now_ms),
        )
    }

    /// The monitors of `sessions`, in ascending order of session.
    pub open spec fn in_order(self, sessions: Set<u64>) -> Seq<MonitorModel> {
        sorted_ids(sessions).map_values(|s: u64| self.monitors[s])
    }

    /// The entries of a status query: the monitors in ascending order of session,
    /// the unused rest zero.
    pub open spec fn status_entries(self) -> Seq<MonitorStatus> {
        let ms = self.in_order(self.monitors.dom());
        Seq::new(
            ABI_MAX_MONITORS as nat,
            |i: int|
                if i < ms.len() {
                    ms[i].status()
                } else {
                    zero_monitor_status()
                },
        )
    }
}

/// The request leaves its identity to the session.
pub open spec fn wants_ephemeral(req: CreateMonitorRequest) -> bool {
    req.display_id == 0 || req.flags & create_flags::EPHEMERAL_IDENTITY != 0
}

/// The identity a request gets.
pub open spec fn identity_of(req: CreateMonitorRequest) -> u64 {
    if wants_ephemeral(req) {
        ephemeral_id(req.session_id)
    } else {
        req.display_id
    }
}

/// The adapter a request gets. The device-wide preference applies only where the
/// request names none, and gives way to the default when it is stale.
pub open spec fn adapter_for(
    adapters: Seq<AdapterInfo>,
    requested_luid: u64,
    preferred_adapter: u64,
) -> Result<u64, CoreError> {
    if requested_luid != 0 {
        selected_adapter(adapters, requested_luid)
    } else if preferred_adapter != 0 && selected_adapter(adapters, preferred_adapter) is Ok {
        Ok(preferred_adapter)
    } else {
        selected_adapter(adapters, 0)
    }
}

/// The product code of a monitor: that of its pool member, or of its connector.
pub open spec fn product_code_for(display_id: u64, connector: u32) -> u16 {
    if in_permanent_range(display_id) {
        product_code(PERMANENT_PRODUCT_CODE_BASE, (display_id % 0x1_0000_0000) as u32)
    } else {
        product_code(TEMPORARY_PRODUCT_CODE_BASE, connector)
    }
}

/// A host-chosen identity that lies in a reserved range.
pub open spec fn reserved_identity(display_id: u64) -> bool {
    display_id >= EPHEMERAL_DISPLAY_ID_BASE || in_permanent_range(display_id)
}

impl TableModel {
    /// Why a create request is refused, if it is.
    pub open spec fn create_refusal(
        self,
        req: CreateMonitorRequest,
        drv_caps: u32,
        adapters: Seq<AdapterInfo>,
        preferred_adapter: u64,
    ) -> Option<CoreError> {
        if req.session_id == 0 {
            Some(CoreError::BadMode)
        } else if self.monitors.dom().contains(req.session_id) {
            Some(CoreError::DuplicateSession)
        } else if self.monitors.dom().len() >= self.max_monitors {
            Some(CoreError::MaxMonitors)
        } else if self.live_identities().contains(identity_of(req)) {
            Some(CoreError::IdentityInUse)
        } else {
            match mode_list_of(req.modes@, req.mode_count, req.bit_depth, req.hdr, drv_caps) {
                Err(e) => Some(e),
                Ok(_) => match adapter_for(adapters, req.adapter_luid, preferred_adapter) {
                    Err(e) => Some(e),
                    Ok(_) => None,
                },
            }
        }
    }

    /// The monitor that an accepted request creates.
    pub open spec fn new_monitor(
        self,
        now_ms: u64,
        req: CreateMonitorRequest,
        drv_caps: u32,
        adapters: Seq<AdapterInfo>,
        preferred_adapter: u64,
    ) -> MonitorModel {
        let display_id = identity_of(req);
        let connector = self.connectors.connector_for(display_id, self.live_identities())->0;
        let modes = mode_list_of(req.modes@, req.mode_count, req.bit_depth, req.hdr, drv_caps)->Ok_0;
        MonitorModel {
            session_id: req.session_id,
            display_id,
            ephemeral_identity: wants_ephemeral(req),
            connector_index: connector,
            edid_serial: if req.edid_serial != 0 {
                req.edid_serial
            } else {
                folded_serial(display_id)
            },
            derived_serial: req.edid_serial == 0,
            product_code: product_code_for(display_id, connector),
            modes,
            target_modes: modes,
            pending: None,
            refusal: None,
            update_floor: self.next_update_seq,
            adapter_luid: adapter_for(adapters, req.adapter_luid, preferred_adapter)->Ok_0,
            physical_width_mm: req.physical_width_mm,
            physical_height_mm: req.physical_height_mm,
            friendly_name: req.friendly_name,
            flags: req.flags,
            max_nits: req.max_nits,
            lease_timeout_ms: lease_timeout(req.lease_timeout_ms, self.watchdog_secs),
            created_ms: now_ms,
            last_ping_ms: now_ms,
            ring_generation: 1,
            ring_state: ring_state::ACTIVE,
            latest_sequence: 0,
            frames_published: 0,
            frames_dropped: 0,
            last_error: err::OK,
        }
    }

    /// The table after an accepted create request.
    pub open spec fn created(
        self,
        now_ms: u64,
        req: CreateMonitorRequest,
        drv_caps: u32,
        adapters: Seq<AdapterInfo>,
        preferred_adapter: u64,
    ) -> TableModel {
        TableModel {
            monitors: self.monitors.insert(
                req.session_id,
                self.new_monitor(now_ms, req, drv_caps, adapters, preferred_adapter),
            ),
            connectors: self.connectors.acquired(identity_of(req), self.live_identities()),
            ..self
        }
    }

    /// The table after a create request, whatever its outcome.
    pub open spec fn after_create(
        self,
        now_ms: u64,
        req: CreateMonitorRequest,
        drv_caps: u32,
        adapters: Seq<AdapterInfo>,
        preferred_adapter: u64,
    ) -> TableModel {
        if self.create_refusal(req, drv_caps, adapters, preferred_adapter) is None {
            self.created(now_ms, req, drv_caps, adapters, preferred_adapter)
        } else {
            self
        }
    }
}

/// Below the monitor cap there is always a connector to give.
pub proof fn lemma_connector_available(t: TableModel, display_id: u64)
    requires
        t.wf(),
        t.monitors.dom().len() < t.max_monitors,
    ensures
        t.connectors.connector_for(display_id, t.live_identities()) is Some,
{
    let live = t.live_identities();
    if t.connectors.connector_for(display_id, live) is None {
        crate::identity::law_full_means_all_live(t.connectors, display_id, live);
        let f = |s: u64| t.monitors[s].connector_index as int;
        let used = t.monitors.dom().map(f);
        vstd::set_lib::lemma_map_size_bound(t.monitors.dom(), used, f);
        let all = vstd::set_lib::set_int_range(0, t.max_monitors as int);
        vstd::set_lib::lemma_int_range(0, t.max_monitors as int);
        assert forall|c: int| all.contains(c) implies used.contains(c) by {
            let c32 = c as u32;
            assert(t.connectors.held_live(c32, live));
            let d = choose|d: u64| #[trigger]
                t.connectors.reservations.dom().contains(d)
                    && t.connectors.reservations[d].connector == c32 && live.contains(d);
            let s = choose|s: u64| #[trigger]
                t.monitors.dom().contains(s) && t.monitors[s].display_id == d;
            assert(t.monitor_ok(s));
            assert(f(s) == c);
        }
        vstd::set_lib::lemma_len_subset(all, used);
    }
}

/// Creating keeps the table in order.
pub proof fn lemma_created_wf(
    t: TableModel,
    now_ms: u64,
    req: CreateMonitorRequest,
    drv_caps: u32,
    adapters: Seq<AdapterInfo>,
    preferred_adapter: u64,
)
    requires
        t.wf(),
        t.create_refusal(req, drv_caps, adapters, preferred_adapter) is None,
        t.connectors.acquired(identity_of(req), t.live_identities()).wf(),
        t.connectors.next_age < u64::MAX,
    ensures
        t.created(now_ms, req, drv_caps, adapters, preferred_adapter).wf(),
        t.connectors.connector_for(identity_of(req), t.live_identities()) is Some,
{
    let live = t.live_identities();
    let id = identity_of(req);
    let n = t.created(now_ms, req, drv_caps, adapters, preferred_adapter);
    let new = t.new_monitor(now_ms, req, drv_caps, adapters, preferred_adapter);
    lemma_connector_available(t, id);
    crate::modes::law_mode_list_valid(
        req.modes@,
        req.mode_count,
        req.bit_depth,
        req.hdr,
        drv_caps,
    );
    assert forall|i: int| 0 <= i < new.target_modes.len() implies new.modes.contains(
        #[trigger] new.target_modes[i],
    ) by {}
    assert forall|s: u64| #[trigger] n.monitors.dom().contains(s) implies n.monitor_ok(s) by {
        if s != req.session_id {
            assert(t.monitors.dom().contains(s));
            assert(t.monitor_ok(s));
            let d = t.monitors[s].display_id;
            assert(live.contains(d));
            crate::identity::law_live_identities_never_evicted(t.connectors, id, live, d);
        }
    }
    assert forall|a: u64, b: u64|
        #![trigger n.monitors[a], n.monitors[b]]
        n.monitors.dom().contains(a) && n.monitors.dom().contains(b) && a != b implies n.monitors[a].display_id
        != n.monitors[b].display_id by {
        if a == req.session_id {
            assert(t.monitors.dom().contains(b));
            assert(live.contains(t.monitors[b].display_id));
        } else if b == req.session_id {
            assert(t.monitors.dom().contains(a));
            assert(live.contains(t.monitors[a].display_id));
        }
    }
}

/// The selection is what the monitor publishes already, or will once the update
/// on its way lands.
pub open spec fn already_chosen(m: MonitorModel, selection: Seq<Mode>) -> bool {
    match m.pending {
        Some(p) => p.targets == selection,
        None => m.target_modes == selection,
    }
}

/// The selection was refused for good, and nothing has been committed since.
pub open spec fn still_refused(m: MonitorModel, selection: Seq<Mode>, commit_token: u64) -> bool {
    m.refusal matches Some(r) && r.targets == selection && r.token == commit_token
}

/// The answer to a mode update.
pub struct UpdateModel {
    pub targets: Seq<Mode>,
    pub accepted: nat,
    pub rejected: nat,
    pub first_rejected: Option<usize>,
    pub pending: bool,
    pub refused: bool,
    pub blocked: Option<u32>,
    pub queued: Option<u64>,
}

/// What a push did with a target list.
#[derive(Clone, Copy, Debug, PartialEq, Eq, Structural)]
pub enum ModeUpdateResult {
    /// The list is in force.
    Applied,
    /// Nothing changed; the same request may succeed later.
    NotApplied,
    /// Refused: the list would gate out the committed mode, which stands at
    /// `superset_idx` of the monitor's description. Good for as long as `token` is
    /// the commit token.
    Blocked { superset_idx: u32, token: u64 },
}

/// What a report on an update did.
#[derive(Clone, Copy, Debug, PartialEq, Eq, Structural)]
pub enum SettleOutcome {
    /// It decided the update that was outstanding.
    Settled,
    /// A newer update is outstanding, but the operating system took this list on
    /// the way, and the table says so.
    SupersededCommitted,
    /// It says nothing about the monitor of today.
    Stale,
}

impl SettleOutcome {
    pub fn settled(self) -> (r: bool)
        ensures
            r == (self is Settled),
    {
        matches!(self, SettleOutcome::Settled)
    }

    /// A superseded list was written down as published.
    pub fn recorded(self) -> (r: bool)
        ensures
            r == (self is SupersededCommitted),
    {
        matches!(self, SettleOutcome::SupersededCommitted)
    }
}

impl TableModel {
    /// The modes that a mode update asks for, or why it is refused. Bit depth and
    /// dynamic range are the monitor's own.
    pub open spec fn requested_modes(self, session_id: u64, specs: Seq<ModeSpec>, drv_caps: u32) -> Result<
        Seq<Mode>,
        CoreError,
    > {
        if !self.monitors.dom().contains(session_id) {
            Err(CoreError::NoSuchSession)
        } else if specs.len() == 0 || specs.len() > MAX_MODES_PER_MONITOR {
            Err(CoreError::BadMode)
        } else {
            let preferred = self.monitors[session_id].modes[0];
            modes_of(
                specs,
                preferred.bit_depth.raw(),
                if preferred.hdr {
                    1
                } else {
                    0
                },
                drv_caps,
            )
        }
    }

    /// The answer to a request for `requested`. A selection that is empty, already
    /// chosen or still refused queues nothing; any other becomes the update on its
    /// way.
    pub open spec fn update_answer(
        self,
        session_id: u64,
        requested: Seq<Mode>,
        commit_token: u64,
    ) -> UpdateModel {
        let m = self.monitors[session_id];
        let selection = selected_targets(m.modes, requested);
        let accepted = accepted_count(m.modes, requested);
        let in_force = UpdateModel {
            targets: m.target_modes,
            accepted,
            rejected: (requested.len() - accepted) as nat,
            first_rejected: first_rejected(m.modes, requested),
            pending: m.pending is Some,
            refused: false,
            blocked: None,
            queued: None,
        };
        if selection.len() == 0 {
            UpdateModel { refused: true, ..in_force }
        } else if already_chosen(m, selection) {
            UpdateModel { targets: selection, ..in_force }
        } else if still_refused(m, selection, commit_token) {
            UpdateModel { blocked: Some(m.refusal->0.superset_idx), ..in_force }
        } else {
            UpdateModel {
                targets: selection,
                pending: true,
                queued: Some(self.next_update_seq),
                ..in_force
            }
        }
    }

    /// The table after a request for `requested`.
    pub open spec fn after_update(
        self,
        session_id: u64,
        requested: Seq<Mode>,
        commit_token: u64,
    ) -> TableModel {
        let answer = self.update_answer(session_id, requested, commit_token);
        if answer.queued is Some {
            TableModel {
                monitors: self.monitors.insert(
                    session_id,
                    MonitorModel {
                        pending: Some(
                            PendingModel { seq: self.next_update_seq, targets: answer.targets },
                        ),
                        ..self.monitors[session_id]
                    },
                ),
                next_update_seq: (self.next_update_seq + 1) as u64,
                ..self
            }
        } else {
            self
        }
    }

    /// What a report on update `seq` does.
    pub open spec fn settle_outcome(
        self,
        session_id: u64,
        seq: u64,
        result: ModeUpdateResult,
        targets: Seq<Mode>,
    ) -> SettleOutcome {
        let m = self.monitors[session_id];
        if !self.monitors.dom().contains(session_id) || m.pending is None {
            SettleOutcome::Stale
        } else if m.pending->0.seq == seq {
            SettleOutcome::Settled
        } else if result is Applied && m.update_floor <= seq < m.pending->0.seq && publishable(
            m.modes,
            targets,
        ) {
            SettleOutcome::SupersededCommitted
        } else {
            SettleOutcome::Stale
        }
    }

    /// The monitor after its outstanding update was decided.
    pub open spec fn settled_monitor(m: MonitorModel, seq: u64, result: ModeUpdateResult) -> MonitorModel {
        let list = m.pending->0.targets;
        let done = MonitorModel { pending: None, update_floor: (seq + 1) as u64, ..m };
        match result {
            ModeUpdateResult::Applied => MonitorModel { target_modes: list, ..done },
            ModeUpdateResult::NotApplied => MonitorModel { last_error: err::UPDATE_FAILED, ..done },
            ModeUpdateResult::Blocked { superset_idx, token } => MonitorModel {
                last_error: err::MODE_COMMITTED,
                refusal: Some(RefusalModel { targets: list, superset_idx, token }),
                ..done
            },
        }
    }

    /// The table after a report on update `seq`.
    pub open spec fn after_settle(
        self,
        session_id: u64,
        seq: u64,
        result: ModeUpdateResult,
        targets: Seq<Mode>,
    ) -> TableModel {
        let m = self.monitors[session_id];
        match self.settle_outcome(session_id, seq, result, targets) {
            SettleOutcome::Settled => TableModel {
                monitors: self.monitors.insert(session_id, TableModel::settled_monitor(m, seq, result)),
                ..self
            },
            SettleOutcome::SupersededCommitted => TableModel {
                monitors: self.monitors.insert(
                    session_id,
                    MonitorModel { target_modes: targets, update_floor: (seq + 1) as u64, ..m },
                ),
                ..self
            },
            SettleOutcome::Stale => self,
        }
    }
}

impl TableModel {
    /// The table with another monitor under `session_id`.
    pub open spec fn with_monitor(self, session_id: u64, m: MonitorModel) -> TableModel {
        TableModel { monitors: self.monitors.insert(session_id, m), ..self }
    }
}

/// Replacing a live monitor by one of the same session, identity and connector
/// keeps the table in order.
pub proof fn lemma_with_monitor_wf(t: TableModel, session_id: u64, m: MonitorModel)
    requires
        t.wf(),
        t.monitors.dom().contains(session_id),
        m.wf(),
        m.session_id == session_id,
        m.display_id == t.monitors[session_id].display_id,
        m.connector_index == t.monitors[session_id].connector_index,
        m.product_code == t.monitors[session_id].product_code,
        m.edid_serial == t.monitors[session_id].edid_serial,
        m.derived_serial == t.monitors[session_id].derived_serial,
        m.update_floor <= t.next_update_seq,
        m.pending matches Some(p) ==> p.seq < t.next_update_seq,
    ensures
        t.with_monitor(session_id, m).wf(),
{
    let n = t.with_monitor(session_id, m);
    assert(t.monitor_ok(session_id));
    assert(n.monitors.dom() =~= t.monitors.dom());
    assert forall|s: u64| #[trigger] n.monitors.dom().contains(s) implies n.monitor_ok(s) by {
        assert(t.monitor_ok(s));
    }
    assert forall|a: u64, b: u64|
        #![trigger n.monitors[a], n.monitors[b]]
        n.monitors.dom().contains(a) && n.monitors.dom().contains(b) && a != b implies n.monitors[a].display_id
        != n.monitors[b].display_id by {
        assert(t.monitors[a].display_id != t.monitors[b].display_id);
    }
}

/// Putting back reservations keeps the table in order, as long as none moves a live
/// identity.
pub proof fn lemma_restored_wf(t: TableModel, entries: Seq<(u64, u32)>)
    requires
        t.wf(),
        forall|i: int|
            0 <= i < entries.len() && t.live_identities().contains((#[trigger] entries[i]).0)
                ==> entries[i].1 == t.connectors.reservations[entries[i].0].connector,
        t.connectors.restored(entries).wf(),
        t.connectors.restored(entries).max_connectors == t.max_monitors,
    ensures
        (TableModel { connectors: t.connectors.restored(entries), ..t }).wf(),
{
    let n = TableModel { connectors: t.connectors.restored(entries), ..t };
    assert forall|s: u64| #[trigger] n.monitors.dom().contains(s) implies n.monitor_ok(s) by {
        assert(t.monitor_ok(s));
        assert(t.live_identities().contains(t.monitors[s].display_id));
        lemma_restored_keeps(t, entries, t.monitors[s].display_id);
    }
}

proof fn lemma_restored_keeps(t: TableModel, entries: Seq<(u64, u32)>, d: u64)
    requires
        t.connectors.reservations.dom().contains(d),
        t.live_identities().contains(d),
        t.connectors.reservations[d].connector < t.connectors.max_connectors,
        forall|i: int|
            0 <= i < entries.len() && t.live_identities().contains((#[trigger] entries[i]).0)
                ==> entries[i].1 == t.connectors.reservations[entries[i].0].connector,
    ensures
        t.connectors.restored(entries).reservations.dom().contains(d),
        t.connectors.restored(entries).reservations[d].connector
            == t.connectors.reservations[d].connector,
    decreases entries.len(),
{
    if entries.len() > 0 {
        let rest = entries.drop_last();
        assert forall|i: int| 0 <= i < rest.len() && t.live_identities().contains(
            (#[trigger] rest[i]).0,
        ) implies rest[i].1 == t.connectors.reservations[rest[i].0].connector by {
            assert(rest[i] == entries[i]);
        }
        lemma_restored_keeps(t, rest, d);
        let before = t.connectors.restored(rest);
        let last = entries.last();
        assert(last == entries[entries.len() - 1]);
        if last.0 == d {
            assert(before.reservations[d].connector == last.1);
            assert(before.taken(last.1));
        }
    }
}

/// Ending sessions keeps the table in order.
pub proof fn lemma_without_sessions_wf(t: TableModel, dead: Set<u64>)
    requires
        t.wf(),
    ensures
        t.without_sessions(dead).wf(),
{
    let n = t.without_sessions(dead);
    let gone = t.throwaway_identities(dead);
    assert(n.monitors.dom() =~= t.monitors.dom().difference(dead));
    vstd::set_lib::lemma_len_subset(n.monitors.dom(), t.monitors.dom());
    assert forall|s: u64| #[trigger] n.monitors.dom().contains(s) implies n.monitor_ok(s) by {
        assert(t.monitors.dom().contains(s));
        assert(t.monitor_ok(s));
        let d = t.monitors[s].display_id;
        if gone.contains(d) {
            let x = choose|x: u64| #[trigger]
                dead.contains(x) && t.monitors.dom().contains(x)
                    && t.monitors[x].ephemeral_identity && t.monitors[x].display_id == d;
            assert(t.monitors[x].display_id == t.monitors[s].display_id);
        }
    }
    assert(n.connectors.reservations.dom() =~= t.connectors.reservations.dom().difference(gone));
    assert forall|a: u64, b: u64|
        #![trigger n.monitors[a], n.monitors[b]]
        n.monitors.dom().contains(a) && n.monitors.dom().contains(b) && a != b implies n.monitors[a].display_id
        != n.monitors[b].display_id by {
        assert(t.monitors[a].display_id != t.monitors[b].display_id);
    }
    assert forall|a: u64, b: u64|
        #![trigger n.connectors.reservations[a], n.connectors.reservations[b]]
        n.connectors.reservations.dom().contains(a) && n.connectors.reservations.dom().contains(b) && a
            != b implies n.connectors.reservations[a].connector != n.connectors.reservations[b].connector
        && n.connectors.reservations[a].last_used != n.connectors.reservations[b].last_used by {
        let (x, y) = (t.connectors.reservations[a], t.connectors.reservations[b]);
        assert(x.connector != y.connector);
    }
}

/// Sessions may end one after the other or all at once.
pub proof fn lemma_without_sessions_step(t: TableModel, dead: Set<u64>, s: u64)
    requires
        t.wf(),
        t.monitors.dom().contains(s),
        !dead.contains(s),
    ensures
        t.without_sessions(dead).without_sessions(set![s]) == t.without_sessions(dead.insert(s)),
{
    let a = t.without_sessions(dead);
    let b = a.without_sessions(set![s]);
    let c = t.without_sessions(dead.insert(s));
    assert(b.monitors =~= c.monitors);
    let (ga, gb, gc) = (
        t.throwaway_identities(dead),
        a.throwaway_identities(set![s]),
        t.throwaway_identities(dead.insert(s)),
    );
    assert(a.monitors.dom().contains(s));
    assert forall|d: u64| gc.contains(d) == (ga.contains(d) || gb.contains(d)) by {
        if gc.contains(d) {
            let x = choose|x: u64| #[trigger]
                dead.insert(s).contains(x) && t.monitors.dom().contains(x)
                    && t.monitors[x].ephemeral_identity && t.monitors[x].display_id == d;
            if x == s {
                assert(set![s].contains(s));
                assert(gb.contains(d));
            } else {
                assert(dead.contains(x));
            }
        }
        if ga.contains(d) {
            let x = choose|x: u64| #[trigger]
                dead.contains(x) && t.monitors.dom().contains(x)
                    && t.monitors[x].ephemeral_identity && t.monitors[x].display_id == d;
            assert(dead.insert(s).contains(x));
        }
        if gb.contains(d) {
            assert(dead.insert(s).contains(s));
        }
    }
    assert(b.connectors.reservations =~= c.connectors.reservations);
}

} // verus!
