//! The monitors the driver has with the operating system: those that are attached,
//! and those that were taken off for the length of a device recovery.
//!
//! Every call to the operating system happens between two steps of this module, with
//! nothing held: the display stack answers such calls by calling back.
use vstd::prelude::*;

use crate::idmap::{sorted_ids, IdMap};
use crate::modepush::committed::{CommittedMode, CommittedPaths, PathsModel};
use crate::modepush::{gate, live_gate, parked_outcome, parked_push, stage, LiveGate, PushOutcome};
use crate::modes::{copy_modes, same_modes, Mode};
use crate::proto::err;
use crate::session::is_publishable;
use crate::session::model::publishable;

verus! {

/// Everything needed to attach a monitor, now or again.
pub struct MonitorSpec {
    pub session_id: u64,
    pub display_id: u64,
    pub connector_index: u32,
    /// The adapter it renders on.
    pub adapter_luid: u64,
    /// The EDID it is described by.
    pub edid: Box<[u8; 256]>,
    /// What it describes.
    pub monitor_modes: Vec<Mode>,
    /// What it publishes.
    pub target_modes: Vec<Mode>,
}

/// What such a description says.
pub struct SpecModel {
    pub session_id: u64,
    pub display_id: u64,
    pub connector_index: u32,
    pub adapter_luid: u64,
    pub edid: Seq<u8>,
    pub monitor_modes: Seq<Mode>,
    pub target_modes: Seq<Mode>,
}

impl View for MonitorSpec {
    type V = SpecModel;

    open spec fn view(&self) -> SpecModel {
        SpecModel {
            session_id: self.session_id,
            display_id: self.display_id,
            connector_index: self.connector_index,
            adapter_luid: self.adapter_luid,
            edid: self.edid@,
            monitor_modes: self.monitor_modes@,
            target_modes: self.target_modes@,
        }
    }
}

impl MonitorSpec {
    /// A monitor to attach. `None` unless it publishes some of what it describes.
    pub fn new(
        session_id: u64,
        display_id: u64,
        connector_index: u32,
        adapter_luid: u64,
        edid: Box<[u8; 256]>,
        monitor_modes: Vec<Mode>,
        target_modes: Vec<Mode>,
    ) -> (r: Option<Self>)
        ensures
            ({
                let model = SpecModel {
                    session_id,
                    display_id,
                    connector_index,
                    adapter_luid,
                    edid: edid@,
                    monitor_modes: monitor_modes@,
                    target_modes: target_modes@,
                };
                &&& r is Some <==> model.wf()
                &&& r matches Some(s) ==> s@ == model
            }),
    {
        if monitor_modes.len() as u64 > u32::MAX as u64 || !is_publishable(
            monitor_modes.as_slice(),
            target_modes.as_slice(),
        ) {
            return None;
        }
        Some(
            MonitorSpec {
                session_id,
                display_id,
                connector_index,
                adapter_luid,
                edid,
                monitor_modes,
                target_modes,
            },
        )
    }
}

impl SpecModel {
    /// It publishes some of what it describes.
    pub open spec fn wf(self) -> bool {
        &&& self.edid.len() == 256
        &&& self.monitor_modes.len() <= u32::MAX
        &&& publishable(self.monitor_modes, self.target_modes)
    }

    /// The eight bytes of the EDID that tell monitors apart.
    pub open spec fn identity_octets(self) -> Seq<u8> {
        self.edid.subrange(8, 16)
    }
}

/// An attached monitor.
pub struct LiveMonitor {
    /// The monitor object.
    pub handle: u64,
    pub spec: MonitorSpec,
}

pub struct LiveModel {
    pub handle: u64,
    pub spec: SpecModel,
}

impl View for LiveMonitor {
    type V = LiveModel;

    open spec fn view(&self) -> LiveModel {
        LiveModel { handle: self.handle, spec: self.spec@ }
    }
}

/// What the driver has with the operating system.
pub struct SetModel {
    /// Attached, by session.
    pub live: Map<u64, LiveModel>,
    /// Taken off, in the order in which that happened.
    pub parked: Seq<SpecModel>,
}

/// The first parked monitor of a session.
pub open spec fn first_parked(parked: Seq<SpecModel>, session_id: u64) -> Option<int>
    decreases parked.len(),
{
    if parked.len() == 0 {
        None
    } else {
        match first_parked(parked.drop_last(), session_id) {
            Some(i) => Some(i),
            None => if parked.last().session_id == session_id {
                Some(parked.len() - 1)
            } else {
                None
            },
        }
    }
}

/// The monitors that leave when the sessions in the list are taken out one after the
/// other: each attached one once, in the order of the list.
pub open spec fn taken_in_order(live: Map<u64, LiveModel>, sessions: Seq<u64>) -> Seq<LiveModel>
    decreases sessions.len(),
{
    if sessions.len() == 0 {
        Seq::empty()
    } else {
        let rest = sessions.drop_last();
        let before = taken_in_order(live, rest);
        if live.dom().contains(sessions.last()) && !rest.contains(sessions.last()) {
            before.push(live[sessions.last()])
        } else {
            before
        }
    }
}

/// What a push at a monitor came to, or the call that is to be made.
pub enum PushStepModel {
    Done(PushOutcome),
    Call { handle: u64, previous: Seq<Mode>, superset: u32, unrecognised: Option<CommittedMode> },
}

impl SetModel {
    pub open spec fn wf(self) -> bool {
        &&& self.live.dom().finite()
        &&& forall|s: u64| #[trigger]
            self.live.dom().contains(s) ==> self.live[s].spec.session_id == s && self.live[s].spec.wf()
        &&& forall|i: int| 0 <= i < self.parked.len() ==> (#[trigger] self.parked[i]).wf()
    }

    pub open spec fn with_live(self, m: LiveModel) -> SetModel {
        SetModel { live: self.live.insert(m.spec.session_id, m), ..self }
    }

    /// Without the first parked monitor of a session.
    pub open spec fn unparked(self, session_id: u64) -> SetModel {
        match first_parked(self.parked, session_id) {
            Some(i) => SetModel { parked: self.parked.remove(i), ..self },
            None => self,
        }
    }

    /// The attached monitor `session_id` publishes `targets`.
    pub open spec fn publishing(self, session_id: u64, targets: Seq<Mode>) -> SetModel {
        let m = self.live[session_id];
        self.with_live(
            LiveModel { spec: SpecModel { target_modes: targets, ..m.spec }, ..m },
        )
    }

    /// What a push of `targets` comes to, as far as it can be told before the call.
    pub open spec fn push_step(
        self,
        session_id: u64,
        targets: Seq<Mode>,
        recovering: bool,
        adapter_present: bool,
        committed: PathsModel,
    ) -> PushStepModel {
        let count = targets.len() as u32;
        if targets.len() == 0 {
            PushStepModel::Done(
                PushOutcome::Failed {
                    stage: stage::EMPTY,
                    code: err::BAD_MODE,
                    count: 0,
                    rolled_back: false,
                },
            )
        } else {
            match first_parked(self.parked, session_id) {
                Some(i) => PushStepModel::Done(
                    parked_outcome(self.parked[i].monitor_modes, targets),
                ),
                None => if recovering {
                    PushStepModel::Done(PushOutcome::Deferred { stage: stage::DUCK_PENDING, count })
                } else if !adapter_present {
                    PushStepModel::Done(PushOutcome::Deferred { stage: stage::NO_ADAPTER, count })
                } else if !self.live.dom().contains(session_id) {
                    PushStepModel::Done(
                        PushOutcome::Failed {
                            stage: stage::NO_MONITOR,
                            code: err::NO_SUCH_SESSION,
                            count,
                            rolled_back: false,
                        },
                    )
                } else {
                    let m = self.live[session_id];
                    let call = PushStepModel::Call {
                        handle: m.handle,
                        previous: m.spec.target_modes,
                        superset: m.spec.monitor_modes.len() as u32,
                        unrecognised: None,
                    };
                    match gate(m.spec.monitor_modes, targets, committed.mode_on(m.handle)) {
                        LiveGate::Push => call,
                        LiveGate::PushCommittedUnrecognised(c) => PushStepModel::Call {
                            handle: m.handle,
                            previous: m.spec.target_modes,
                            superset: m.spec.monitor_modes.len() as u32,
                            unrecognised: Some(c),
                        },
                        LiveGate::NotInSuperset => PushStepModel::Done(
                            PushOutcome::Failed {
                                stage: stage::NOT_IN_SUPERSET,
                                code: err::BAD_MODE,
                                count,
                                rolled_back: false,
                            },
                        ),
                        LiveGate::EvictsCommitted { committed: c, superset_idx } => PushStepModel::Done(
                            PushOutcome::Blocked {
                                committed: c,
                                superset_idx,
                                token: committed.generation,
                                count,
                            },
                        ),
                    }
                },
            }
        }
    }

    /// What is attached and parked after that step. A parked monitor that took the
    /// list comes back with it; before a call the list is already published, because
    /// the display stack asks for it during the call.
    pub open spec fn after_push_step(
        self,
        session_id: u64,
        targets: Seq<Mode>,
        recovering: bool,
        adapter_present: bool,
        committed: PathsModel,
    ) -> SetModel {
        match self.push_step(session_id, targets, recovering, adapter_present, committed) {
            PushStepModel::Call { .. } => self.publishing(session_id, targets),
            PushStepModel::Done(o) => if o is AppliedParked {
                let i = first_parked(self.parked, session_id)->0;
                SetModel {
                    parked: self.parked.update(
                        i,
                        SpecModel { target_modes: targets, ..self.parked[i] },
                    ),
                    ..self
                }
            } else {
                self
            },
        }
    }

    /// The monitor a failed push was made at still publishes what was pushed.
    pub open spec fn can_restore(self, session_id: u64, handle: u64, pushed: Seq<Mode>) -> bool {
        &&& self.live.dom().contains(session_id)
        &&& self.live[session_id].handle == handle
        &&& self.live[session_id].spec.target_modes == pushed
    }

    /// The monitor object that published `previous`, as long as it is attached,
    /// describes it. What a monitor describes is fixed for its life, so this holds of
    /// everything a push took the place of.
    pub open spec fn describes(self, session_id: u64, handle: u64, previous: Seq<Mode>) -> bool {
        self.live.dom().contains(session_id) && self.live[session_id].handle == handle
            ==> publishable(self.live[session_id].spec.monitor_modes, previous)
    }

    /// Put back what was published before, unless the monitor has changed since.
    pub open spec fn restored(
        self,
        session_id: u64,
        handle: u64,
        pushed: Seq<Mode>,
        previous: Seq<Mode>,
    ) -> SetModel {
        if self.can_restore(session_id, handle, pushed) {
            self.publishing(session_id, previous)
        } else {
            self
        }
    }
}

proof fn lemma_first_parked(parked: Seq<SpecModel>, session_id: u64)
    ensures
        first_parked(parked, session_id) matches Some(i) ==> 0 <= i < parked.len()
            && parked[i].session_id == session_id && forall|j: int|
            0 <= j < i ==> (#[trigger] parked[j]).session_id != session_id,
        first_parked(parked, session_id) is None ==> forall|j: int|
            0 <= j < parked.len() ==> (#[trigger] parked[j]).session_id != session_id,
    decreases parked.len(),
{
    if parked.len() > 0 {
        let rest = parked.drop_last();
        lemma_first_parked(rest, session_id);
        assert forall|j: int| 0 <= j < rest.len() implies #[trigger] parked[j] == rest[j] by {}
    }
}

proof fn lemma_first_parked_is(parked: Seq<SpecModel>, session_id: u64, i: int)
    requires
        0 <= i < parked.len(),
        parked[i].session_id == session_id,
        forall|j: int| 0 <= j < i ==> (#[trigger] parked[j]).session_id != session_id,
    ensures
        first_parked(parked, session_id) == Some(i),
{
    lemma_first_parked(parked, session_id);
    match first_parked(parked, session_id) {
        Some(k) => {
            if k < i {
                assert(parked[k].session_id != session_id);
            }
            if i < k {
                assert(parked[i].session_id != session_id);
            }
        },
        None => {
            assert(parked[i].session_id != session_id);
        },
    }
}

/// Whether the identity of an EDID is the one in `data`.
fn same_identity(edid: &[u8; 256], data: &[u8]) -> (r: bool)
    requires
        data@.len() >= 128,
    ensures
        r == (edid@.subrange(8, 16) == data@.subrange(8, 16)),
{
    let mut i: usize = 8;
    while i < 16
        invariant
            8 <= i <= 16,
            data@.len() >= 128,
            forall|j: int| 8 <= j < i ==> edid@[j] == data@[j],
        decreases 16 - i,
    {
        if edid[i] != data[i] {
            assert(edid@.subrange(8, 16)[i - 8] != data@.subrange(8, 16)[i - 8]);
            return false;
        }
        i += 1;
    }
    assert(edid@.subrange(8, 16) =~= data@.subrange(8, 16));
    true
}

/// What became of the monitor of a session that ends.
pub enum Unplug {
    /// It was parked; only its ring is left to be ended.
    Parked(MonitorSpec),
    /// It was attached and has to be taken off.
    Live(LiveMonitor),
    /// There was none.
    Absent,
}

/// A call that publishes another target list.
pub struct PushCall {
    pub handle: u64,
    pub previous: Vec<Mode>,
    pub superset: u32,
    /// The committed mode, when the monitor does not describe it.
    pub unrecognised: Option<CommittedMode>,
}

pub enum PushStep {
    Done(PushOutcome),
    Call(PushCall),
}

impl View for PushStep {
    type V = PushStepModel;

    open spec fn view(&self) -> PushStepModel {
        match self {
            PushStep::Done(o) => PushStepModel::Done(*o),
            PushStep::Call(c) => PushStepModel::Call {
                handle: c.handle,
                previous: c.previous@,
                superset: c.superset,
                unrecognised: c.unrecognised,
            },
        }
    }
}

/// What the driver has with the operating system.
pub struct MonitorSet {
    live: IdMap<LiveMonitor>,
    parked: Vec<MonitorSpec>,
}

impl View for MonitorSet {
    type V = SetModel;

    closed spec fn view(&self) -> SetModel {
        SetModel {
            live: self.live@.map_values(|m: LiveMonitor| m@),
            parked: self.parked@.map_values(|s: MonitorSpec| s@),
        }
    }
}

impl MonitorSet {
    pub closed spec fn wf(&self) -> bool {
        self.live.wf() && self@.wf()
    }

    pub proof fn lemma_wf(&self)
        requires
            self.wf(),
        ensures
            self@.wf(),
    {
    }

    pub fn new() -> (r: Self)
        ensures
            r.wf(),
            r@.live == Map::<u64, LiveModel>::empty(),
            r@.parked == Seq::<SpecModel>::empty(),
    {
        let r = MonitorSet { live: IdMap::new(), parked: Vec::new() };
        proof {
            assert(r@.live =~= Map::<u64, LiveModel>::empty());
            assert(r@.parked =~= Seq::<SpecModel>::empty());
        }
        r
    }

    pub fn live_count(&self) -> (r: usize)
        requires
            self.wf(),
        ensures
            r == self@.live.dom().len(),
    {
        assert(self@.live.dom() =~= self.live@.dom());
        self.live.len()
    }

    pub fn parked_count(&self) -> (r: usize)
        ensures
            r == self@.parked.len(),
    {
        self.parked.len()
    }

    pub fn get(&self, session_id: u64) -> (r: Option<&LiveMonitor>)
        requires
            self.wf(),
        ensures
            r is Some <==> self@.live.dom().contains(session_id),
            r matches Some(m) ==> m@ == self@.live[session_id],
    {
        self.live.get(session_id)
    }

    /// The attached monitor behind a monitor object: that of the smallest session, if
    /// there should be several.
    pub fn by_handle(&self, handle: u64) -> (r: Option<&LiveMonitor>)
        requires
            self.wf(),
        ensures
            r matches Some(m) ==> {
                &&& self@.live.dom().contains(m@.spec.session_id)
                &&& m@ == self@.live[m@.spec.session_id]
                &&& m@.handle == handle
                &&& forall|s: u64| #[trigger]
                    self@.live.dom().contains(s) && self@.live[s].handle == handle
                        ==> m@.spec.session_id <= s
            },
            r is None ==> forall|s: u64| #[trigger]
                self@.live.dom().contains(s) ==> self@.live[s].handle != handle,
    {
        let ghost ids = self.live.ids();
        let mut i: usize = 0;
        proof {
            self.live.lemma_ids();
        }
        while i < self.live.len()
            invariant
                self.wf(),
                ids == self.live.ids(),
                crate::idmap::ascending(ids),
                forall|k: u64| ids.contains(k) <==> #[trigger] self.live@.dom().contains(k),
                i <= ids.len(),
                forall|j: int| 0 <= j < i ==> self.live@[#[trigger] ids[j]].handle != handle,
            decreases ids.len() - i,
        {
            let m = self.live.at(i);
            if m.handle == handle {
                proof {
                    let s = ids[i as int];
                    assert(self@.live.dom().contains(s));
                    assert forall|t: u64| #[trigger]
                        self@.live.dom().contains(t) && self@.live[t].handle == handle implies s <= t by {
                        assert(self.live@.dom().contains(t));
                        let j = ids.index_of(t);
                        assert(ids[j] == t);
                    }
                }
                return Some(m);
            }
            i += 1;
        }
        proof {
            assert forall|t: u64| #[trigger] self@.live.dom().contains(t) implies self@.live[t].handle
                != handle by {
                assert(self.live@.dom().contains(t));
                let j = ids.index_of(t);
                assert(ids[j] == t);
            }
        }
        None
    }

    /// The attached monitor that an EDID describes, told by the identity in it: that of
    /// the smallest session, if there should be several.
    pub fn by_edid(&self, data: &[u8]) -> (r: Option<&LiveMonitor>)
        requires
            self.wf(),
        ensures
            data@.len() < 128 ==> r is None,
            r matches Some(m) ==> {
                &&& data@.len() >= 128
                &&& self@.live.dom().contains(m@.spec.session_id)
                &&& m@ == self@.live[m@.spec.session_id]
                &&& m@.spec.identity_octets() == data@.subrange(8, 16)
                &&& forall|s: u64| #[trigger]
                    self@.live.dom().contains(s) && self@.live[s].spec.identity_octets()
                        == data@.subrange(8, 16) ==> m@.spec.session_id <= s
            },
            data@.len() >= 128 && r is None ==> forall|s: u64| #[trigger]
                self@.live.dom().contains(s) ==> self@.live[s].spec.identity_octets()
                    != data@.subrange(8, 16),
    {
        if data.len() < 128 {
            return None;
        }
        let ghost ids = self.live.ids();
        let ghost want = data@.subrange(8, 16);
        let mut i: usize = 0;
        proof {
            self.live.lemma_ids();
        }
        while i < self.live.len()
            invariant
                self.wf(),
                data@.len() >= 128,
                want == data@.subrange(8, 16),
                ids == self.live.ids(),
                crate::idmap::ascending(ids),
                forall|k: u64| ids.contains(k) <==> #[trigger] self.live@.dom().contains(k),
                i <= ids.len(),
                forall|j: int|
                    0 <= j < i ==> self.live@[#[trigger] ids[j]].spec@.identity_octets() != want,
            decreases ids.len() - i,
        {
            let m = self.live.at(i);
            if same_identity(&m.spec.edid, data) {
                proof {
                    let s = ids[i as int];
                    assert(self@.live.dom().contains(s));
                    assert forall|t: u64| #[trigger]
                        self@.live.dom().contains(t) && self@.live[t].spec.identity_octets()
                            == want implies s <= t by {
                        assert(self.live@.dom().contains(t));
                        let j = ids.index_of(t);
                        assert(ids[j] == t);
                    }
                }
                return Some(m);
            }
            i += 1;
        }
        proof {
            assert forall|t: u64| #[trigger] self@.live.dom().contains(t) implies self@.live[t].spec.identity_octets()
                != want by {
                assert(self.live@.dom().contains(t));
                let j = ids.index_of(t);
                assert(ids[j] == t);
            }
        }
        None
    }

    fn find_parked(&self, session_id: u64) -> (r: Option<usize>)
        ensures
            match r {
                Some(i) => first_parked(self@.parked, session_id) == Some(i as int) && i
                    < self.parked@.len(),
                None => first_parked(self@.parked, session_id) is None,
            },
    {
        let ghost parked = self@.parked;
        let mut i: usize = 0;
        while i < self.parked.len()
            invariant
                i <= self.parked@.len(),
                parked == self@.parked,
                parked.len() == self.parked@.len(),
                forall|j: int| 0 <= j < i ==> (#[trigger] parked[j]).session_id != session_id,
            decreases self.parked@.len() - i,
        {
            if self.parked[i].session_id == session_id {
                proof {
                    assert(parked[i as int] == self.parked@[i as int]@);
                    lemma_first_parked_is(parked, session_id, i as int);
                }
                return Some(i);
            }
            assert(parked[i as int] == self.parked@[i as int]@);
            i += 1;
        }
        proof {
            lemma_first_parked(parked, session_id);
        }
        None
    }

    /// Drop the parked monitor of a session that is about to be attached anew, or has
    /// ended. Returns it, if there was one.
    pub fn unpark(&mut self, session_id: u64) -> (r: Option<MonitorSpec>)
        requires
            old(self).wf(),
        ensures
            final(self).wf(),
            final(self)@ == old(self)@.unparked(session_id),
            r is Some <==> first_parked(old(self)@.parked, session_id) is Some,
            r matches Some(s) ==> s@ == old(self)@.parked[first_parked(
                old(self)@.parked,
                session_id,
            )->0],
    {
        match self.find_parked(session_id) {
            Some(i) => {
                let ghost before = self@;
                let s = self.parked.remove(i);
                proof {
                    assert(self@.parked =~= before.parked.remove(i as int));
                    assert forall|j: int| 0 <= j < self@.parked.len() implies (
                    #[trigger] self@.parked[j]).wf() by {
                        let k = if j < i { j } else { j + 1 };
                        assert(self@.parked[j] == before.parked[k]);
                    }
                }
                Some(s)
            },
            None => None,
        }
    }

    /// Add a monitor that was created. Returns the one it took the place of, if any.
    pub fn insert(&mut self, m: LiveMonitor) -> (r: Option<LiveMonitor>)
        requires
            old(self).wf(),
            m@.spec.wf(),
        ensures
            final(self).wf(),
            final(self)@ == old(self)@.with_live(m@),
            r is Some <==> old(self)@.live.dom().contains(m@.spec.session_id),
            r matches Some(o) ==> o@ == old(self)@.live[m@.spec.session_id],
    {
        let ghost before = self@;
        let ghost model = m@;
        let session_id: u64 = m.spec.session_id;
        let displaced = self.live.remove(session_id);
        self.live.insert(session_id, m);
        proof {
            assert(self@.live =~= before.live.insert(session_id, model));
            assert(self@.live.dom() =~= before.live.dom().insert(session_id));
            assert(self@.parked == before.parked);
            assert forall|s: u64| #[trigger] self@.live.dom().contains(s) implies self@.live[s].spec.session_id
                == s && self@.live[s].spec.wf() by {
                if s != session_id {
                    assert(before.live.dom().contains(s));
                }
            }
        }
        displaced
    }

    /// Take a monitor out, because it could not be attached after all or because it is
    /// taken off.
    pub fn remove(&mut self, session_id: u64) -> (r: Option<LiveMonitor>)
        requires
            old(self).wf(),
        ensures
            final(self).wf(),
            final(self)@ == (SetModel { live: old(self)@.live.remove(session_id), ..old(self)@ }),
            r is Some <==> old(self)@.live.dom().contains(session_id),
            r matches Some(o) ==> o@ == old(self)@.live[session_id] && o@.spec.wf(),
    {
        let ghost before = self@;
        let r = self.live.remove(session_id);
        assert(self@.live =~= before.live.remove(session_id));
        r
    }

    /// The monitor of a session that ends.
    pub fn unplug(&mut self, session_id: u64) -> (r: Unplug)
        requires
            old(self).wf(),
        ensures
            final(self).wf(),
            match first_parked(old(self)@.parked, session_id) {
                Some(i) => r matches Unplug::Parked(s) && s@ == old(self)@.parked[i] && final(self)@
                    == old(self)@.unparked(session_id),
                None => {
                    &&& final(self)@ == (SetModel {
                        live: old(self)@.live.remove(session_id),
                        ..old(self)@
                    })
                    &&& if old(self)@.live.dom().contains(session_id) {
                        r matches Unplug::Live(m) && m@ == old(self)@.live[session_id]
                    } else {
                        r is Absent
                    }
                },
            },
    {
        if let Some(s) = self.unpark(session_id) {
            return Unplug::Parked(s);
        }
        match self.remove(session_id) {
            Some(m) => Unplug::Live(m),
            None => Unplug::Absent,
        }
    }

    /// Take out every attached monitor, in ascending order of session.
    pub fn take_all(&mut self) -> (r: Vec<LiveMonitor>)
        requires
            old(self).wf(),
        ensures
            final(self).wf(),
            final(self)@ == (SetModel { live: Map::empty(), ..old(self)@ }),
            r@.map_values(|m: LiveMonitor| m@) == sorted_ids(old(self)@.live.dom()).map_values(
                |s: u64| old(self)@.live[s],
            ),
            forall|i: int| 0 <= i < r@.len() ==> (#[trigger] r@[i])@.spec.wf(),
    {
        let ghost before = self@;
        let ghost live0 = self.live@;
        let ghost ids = self.live.ids();
        let mut out: Vec<LiveMonitor> = Vec::new();
        proof {
            self.live.lemma_ids();
            assert(before.live.dom() =~= live0.dom());
            assert(live0.remove_keys(Set::<u64>::empty()) =~= live0);
        }
        let n: usize = self.live.len();
        let mut keys: Vec<u64> = Vec::new();
        let mut i: usize = 0;
        while i < n
            invariant
                i <= n,
                *self == *old(self),
                self.live.wf(),
                ids == self.live.ids(),
                n == ids.len(),
                keys@ == ids.take(i as int),
            decreases n - i,
        {
            keys.push(self.live.key_at(i));
            i += 1;
            assert(keys@ =~= ids.take(i as int));
        }
        assert(keys@ =~= ids);
        let mut j: usize = 0;
        proof {
            assert(ids.take(0).to_set() =~= Set::<u64>::empty());
        }
        while j < n
            invariant
                j <= n,
                self.live.wf(),
                self.parked == old(self).parked,
                keys@ == ids,
                n == ids.len(),
                crate::idmap::ascending(ids),
                ids.to_set() == live0.dom(),
                self.live@ == live0.remove_keys(ids.take(j as int).to_set()),
                out@.len() == j,
                forall|k: int| 0 <= k < j ==> #[trigger] out@[k] == live0[ids[k]],
            decreases n - j,
        {
            let ghost gone = ids.take(j as int).to_set();
            proof {
                assert(ids.contains(ids[j as int]));
                assert(live0.dom().contains(ids[j as int]));
                if ids.take(j as int).contains(ids[j as int]) {
                    let p = ids.take(j as int).index_of(ids[j as int]);
                    assert(ids[p] == ids[j as int]);
                }
                assert forall|k: u64| ids.take(j + 1).to_set().contains(k) == gone.insert(
                    ids[j as int],
                ).contains(k) by {
                    if ids.take(j + 1).contains(k) {
                        let p = ids.take(j + 1).index_of(k);
                        if p < j {
                            assert(ids.take(j as int)[p] == k);
                        }
                    }
                    if ids.take(j as int).contains(k) {
                        let p = ids.take(j as int).index_of(k);
                        assert(ids.take(j + 1)[p] == k);
                    }
                    assert(ids.take(j + 1)[j as int] == ids[j as int]);
                }
                assert(ids.take(j + 1).to_set() =~= gone.insert(ids[j as int]));
                assert(live0.remove_keys(gone).remove(ids[j as int]) =~= live0.remove_keys(
                    gone.insert(ids[j as int]),
                ));
            }
            if let Some(m) = self.live.remove(keys[j]) {
                out.push(m);
            }
            j += 1;
        }
        proof {
            assert(ids.take(n as int) =~= ids);
            assert(self@.live =~= Map::<u64, LiveModel>::empty());
            assert(out@.map_values(|m: LiveMonitor| m@) =~= sorted_ids(before.live.dom()).map_values(
                |s: u64| before.live[s],
            ));
            assert forall|k: int| 0 <= k < out@.len() implies (#[trigger] out@[k])@.spec.wf() by {
                assert(ids.to_set().contains(ids[k]));
                assert(before.live.dom().contains(ids[k]));
                assert(out@[k]@ == before.live[ids[k]]);
            }
        }
        out
    }

    /// Take out the attached monitors of some sessions.
    pub fn take_sessions(&mut self, sessions: &[u64]) -> (r: Vec<LiveMonitor>)
        requires
            old(self).wf(),
        ensures
            final(self).wf(),
            final(self)@ == (SetModel {
                live: old(self)@.live.remove_keys(sessions@.to_set()),
                ..old(self)@
            }),
            r@.map_values(|m: LiveMonitor| m@) == taken_in_order(old(self)@.live, sessions@),
            forall|i: int| 0 <= i < r@.len() ==> (#[trigger] r@[i])@.spec.wf(),
    {
        let ghost before = self@;
        let mut out: Vec<LiveMonitor> = Vec::new();
        let mut i: usize = 0;
        proof {
            assert(sessions@.take(0) =~= Seq::<u64>::empty());
            assert(sessions@.take(0).to_set() =~= Set::<u64>::empty());
            assert(before.live.remove_keys(Set::empty()) =~= before.live);
            assert(out@.map_values(|m: LiveMonitor| m@) =~= Seq::<LiveModel>::empty());
        }
        while i < sessions.len()
            invariant
                i <= sessions@.len(),
                self.wf(),
                self@ == (SetModel {
                    live: before.live.remove_keys(sessions@.take(i as int).to_set()),
                    ..before
                }),
                out@.map_values(|m: LiveMonitor| m@) == taken_in_order(
                    before.live,
                    sessions@.take(i as int),
                ),
                forall|k: int| 0 <= k < out@.len() ==> (#[trigger] out@[k])@.spec.wf(),
            decreases sessions@.len() - i,
        {
            let s: u64 = sessions[i];
            let ghost upto = sessions@.take(i + 1);
            let ghost was = out@;
            proof {
                let rest = sessions@.take(i as int);
                assert(upto.drop_last() =~= rest);
                assert(upto.last() == s);
                assert forall|k: u64| upto.to_set().contains(k) == rest.to_set().insert(s).contains(k) by {
                    if upto.contains(k) {
                        let p = upto.index_of(k);
                        if p < i {
                            assert(rest[p] == k);
                        }
                    }
                    if rest.contains(k) {
                        let p = rest.index_of(k);
                        assert(upto[p] == k);
                    }
                    assert(upto[i as int] == s);
                }
                assert(upto.to_set() =~= rest.to_set().insert(s));
                assert(before.live.remove_keys(rest.to_set()).remove(s)
                    =~= before.live.remove_keys(upto.to_set()));
            }
            if let Some(m) = self.remove(s) {
                out.push(m);
                assert(out@.map_values(|m: LiveMonitor| m@) =~= was.map_values(
                    |m: LiveMonitor| m@,
                ).push(m@));
            }
            i += 1;
        }
        assert(sessions@.take(i as int) =~= sessions@);
        out
    }

    /// Take out every parked monitor, oldest first.
    pub fn take_parked(&mut self) -> (r: Vec<MonitorSpec>)
        requires
            old(self).wf(),
        ensures
            final(self).wf(),
            final(self)@ == (SetModel { parked: Seq::empty(), ..old(self)@ }),
            r@.map_values(|s: MonitorSpec| s@) == old(self)@.parked,
            forall|i: int| 0 <= i < r@.len() ==> (#[trigger] r@[i])@.wf(),
    {
        let mut out: Vec<MonitorSpec> = Vec::new();
        out.append(&mut self.parked);
        proof {
            assert forall|i: int| 0 <= i < out@.len() implies (#[trigger] out@[i])@.wf() by {
                assert(old(self)@.parked[i] == out@[i]@);
            }
            assert(out@ =~= old(self).parked@);
            assert(self@.parked =~= Seq::<SpecModel>::empty());
        }
        out
    }

    /// A monitor that was taken out has been taken off, or could not be: then it stays
    /// attached.
    pub fn departed(&mut self, m: LiveMonitor, ok: bool)
        requires
            old(self).wf(),
            m@.spec.wf(),
        ensures
            final(self).wf(),
            final(self)@ == (if ok {
                SetModel { parked: old(self)@.parked.push(m@.spec), ..old(self)@ }
            } else {
                old(self)@.with_live(m@)
            }),
    {
        if ok {
            let ghost before = self@;
            let ghost model = m@;
            self.parked.push(m.spec);
            proof {
                assert(self@.parked =~= before.parked.push(model.spec));
            }
        } else {
            let _ = self.insert(m);
        }
    }

    /// Push another target list at the monitor of a session: what it came to, or the
    /// call to make.
    pub fn begin_push(
        &mut self,
        session_id: u64,
        targets: &[Mode],
        recovering: bool,
        adapter_present: bool,
        committed: &CommittedPaths,
    ) -> (r: PushStep)
        requires
            old(self).wf(),
            committed.wf(),
            targets@.len() <= u32::MAX,
        ensures
            final(self).wf(),
            r@ == old(self)@.push_step(session_id, targets@, recovering, adapter_present, committed@),
            final(self)@ == old(self)@.after_push_step(
                session_id,
                targets@,
                recovering,
                adapter_present,
                committed@,
            ),
    {
        let ghost before = self@;
        let count: u32 = targets.len() as u32;
        if count == 0 {
            return PushStep::Done(
                PushOutcome::Failed {
                    stage: stage::EMPTY,
                    code: err::BAD_MODE,
                    count: 0,
                    rolled_back: false,
                },
            );
        }
        if let Some(i) = self.find_parked(session_id) {
            assert(before.parked[i as int] == self.parked@[i as int]@);
            let outcome = parked_push(self.parked[i].monitor_modes.as_slice(), targets);
            if outcome.commits() {
                self.parked[i].target_modes = copy_modes(targets);
                proof {
                    let after = before.after_push_step(
                        session_id,
                        targets@,
                        recovering,
                        adapter_present,
                        committed@,
                    );
                    assert(self@.parked =~= after.parked);
                    assert forall|j: int| 0 <= j < self@.parked.len() implies (
                    #[trigger] self@.parked[j]).wf() by {
                        assert(before.parked[j].wf());
                    }
                }
            }
            return PushStep::Done(outcome);
        }
        if recovering {
            return PushStep::Done(PushOutcome::Deferred { stage: stage::DUCK_PENDING, count });
        }
        if !adapter_present {
            return PushStep::Done(PushOutcome::Deferred { stage: stage::NO_ADAPTER, count });
        }
        let m = match self.live.get(session_id) {
            Some(m) => m,
            None => return PushStep::Done(
                PushOutcome::Failed {
                    stage: stage::NO_MONITOR,
                    code: err::NO_SUCH_SESSION,
                    count,
                    rolled_back: false,
                },
            ),
        };
        assert(before.live.dom().contains(session_id));
        let handle: u64 = m.handle;
        let superset: u32 = m.spec.monitor_modes.len() as u32;
        let (mode, token) = committed.get_with_token(handle);
        let mut unrecognised: Option<CommittedMode> = None;
        match live_gate(m.spec.monitor_modes.as_slice(), targets, mode) {
            LiveGate::Push => {},
            LiveGate::PushCommittedUnrecognised(c) => {
                unrecognised = Some(c);
            },
            LiveGate::NotInSuperset => {
                return PushStep::Done(
                    PushOutcome::Failed {
                        stage: stage::NOT_IN_SUPERSET,
                        code: err::BAD_MODE,
                        count,
                        rolled_back: false,
                    },
                );
            },
            LiveGate::EvictsCommitted { committed, superset_idx } => {
                return PushStep::Done(PushOutcome::Blocked { committed, superset_idx, token, count });
            },
        }
        let previous: Vec<Mode> = self.set_targets(session_id, copy_modes(targets));
        PushStep::Call(PushCall { handle, previous, superset, unrecognised })
    }

    /// Publish `targets` on an attached monitor. Returns what it published before.
    fn set_targets(&mut self, session_id: u64, targets: Vec<Mode>) -> (r: Vec<Mode>)
        requires
            old(self).wf(),
            old(self)@.live.dom().contains(session_id),
            publishable(old(self)@.live[session_id].spec.monitor_modes, targets@),
        ensures
            final(self).wf(),
            final(self)@ == old(self)@.publishing(session_id, targets@),
            r@ == old(self)@.live[session_id].spec.target_modes,
    {
        let ghost before = self@;
        let ghost list = targets@;
        let previous: Vec<Mode> = match self.live.get(session_id) {
            Some(m) => copy_modes(m.spec.target_modes.as_slice()),
            None => Vec::new(),
        };
        if let Some(m) = self.live.get_mut(session_id) {
            m.spec.target_modes = targets;
        }
        proof {
            assert(self@.live =~= before.publishing(session_id, list).live);
        }
        previous
    }

    /// Whether the list a push took the place of can be put back.
    pub fn describes(&self, session_id: u64, call: &PushCall) -> (r: bool)
        requires
            self.wf(),
        ensures
            r == self@.describes(session_id, call.handle, call.previous@),
    {
        match self.live.get(session_id) {
            Some(m) => m.handle != call.handle || is_publishable(
                m.spec.monitor_modes.as_slice(),
                call.previous.as_slice(),
            ),
            None => true,
        }
    }

    /// Put back what a monitor published before a push that did not take. Returns
    /// whether that was done, and whether the monitor had changed in the meantime.
    pub fn restore_targets(
        &mut self,
        session_id: u64,
        handle: u64,
        pushed: &[Mode],
        previous: Vec<Mode>,
    ) -> (r: (bool, bool))
        requires
            old(self).wf(),
            old(self)@.describes(session_id, handle, previous@),
        ensures
            final(self).wf(),
            final(self)@ == old(self)@.restored(session_id, handle, pushed@, previous@),
            r.0 == old(self)@.can_restore(session_id, handle, pushed@),
            r.1 == !r.0,
    {
        let same: bool = match self.live.get(session_id) {
            Some(m) => m.handle == handle && same_modes(m.spec.target_modes.as_slice(), pushed),
            None => false,
        };
        if same {
            let _ = self.set_targets(session_id, previous);
            (true, false)
        } else {
            (false, true)
        }
    }

    /// The adapter went away before the call could be made: put back what was
    /// published before.
    pub fn abandon_push(&mut self, session_id: u64, call: PushCall, targets: &[Mode]) -> (r: PushOutcome)
        requires
            old(self).wf(),
            old(self)@.describes(session_id, call.handle, call.previous@),
            targets@.len() <= u32::MAX,
        ensures
            final(self).wf(),
            final(self)@ == old(self)@.restored(session_id, call.handle, targets@, call.previous@),
            r == (PushOutcome::Deferred {
                stage: stage::ADAPTER_TORN_DOWN,
                count: targets@.len() as u32,
            }),
    {
        let count: u32 = targets.len() as u32;
        let _ = self.restore_targets(session_id, call.handle, targets, call.previous);
        PushOutcome::Deferred { stage: stage::ADAPTER_TORN_DOWN, count }
    }

    /// The call has returned `status`, where 0 is success. If the operating system did
    /// not take the list, put back what was published before.
    pub fn finish_push(&mut self, session_id: u64, call: PushCall, targets: &[Mode], status: i32) -> (r:
        PushOutcome)
        requires
            old(self).wf(),
            old(self)@.describes(session_id, call.handle, call.previous@),
            targets@.len() <= u32::MAX,
        ensures
            final(self).wf(),
            status == 0 ==> final(self)@ == old(self)@ && r == (PushOutcome::Applied {
                published: targets@.len() as u32,
                superset: call.superset,
            }),
            status != 0 ==> final(self)@ == old(self)@.restored(
                session_id,
                call.handle,
                targets@,
                call.previous@,
            ) && r == (PushOutcome::Failed {
                stage: if old(self)@.can_restore(session_id, call.handle, targets@) {
                    stage::OS_CALL
                } else {
                    stage::ROLLBACK_RACED
                },
                code: status,
                count: targets@.len() as u32,
                rolled_back: old(self)@.can_restore(session_id, call.handle, targets@),
            }),
    {
        let count: u32 = targets.len() as u32;
        if status == 0 {
            return PushOutcome::Applied { published: count, superset: call.superset };
        }
        let (rolled_back, raced) = self.restore_targets(
            session_id,
            call.handle,
            targets,
            call.previous,
        );
        PushOutcome::Failed {
            stage: if raced {
                stage::ROLLBACK_RACED
            } else {
                stage::OS_CALL
            },
            code: status,
            count,
            rolled_back,
        }
    }
}

/// A push that the operating system refuses leaves everything as it was: the monitor
/// stays attached and publishes what it published before.
pub proof fn law_refused_push_changes_nothing(
    t: SetModel,
    session_id: u64,
    targets: Seq<Mode>,
    committed: PathsModel,
)
    requires
        t.wf(),
        t.push_step(session_id, targets, false, true, committed) is Call,
    ensures
        ({
            let n = t.after_push_step(session_id, targets, false, true, committed);
            let (handle, previous) = match t.push_step(session_id, targets, false, true, committed) {
                PushStepModel::Call { handle, previous, .. } => (handle, previous),
                PushStepModel::Done(_) => (0, Seq::empty()),
            };
            &&& n.can_restore(session_id, handle, targets)
            &&& n.describes(session_id, handle, previous)
            &&& n.restored(session_id, handle, targets, previous) == t
        }),
{
    let n = t.after_push_step(session_id, targets, false, true, committed);
    let m = t.live[session_id];
    let back = n.restored(session_id, m.handle, targets, m.spec.target_modes);
    assert(back.live[session_id] == m);
    assert(back.live =~= t.live);
}

/// Once a push has been begun, its list can be put back for as long as the monitor
/// object is the same: neither further pushes, nor monitors that come, go, park or return
/// as other objects, change that.
pub proof fn law_pushed_list_stays_restorable(
    t: SetModel,
    session_id: u64,
    handle: u64,
    previous: Seq<Mode>,
    other: u64,
    targets: Seq<Mode>,
    m: LiveModel,
)
    requires
        t.wf(),
        t.describes(session_id, handle, previous),
        m.handle != handle,
    ensures
        t.live.dom().contains(other) ==> t.publishing(other, targets).describes(
            session_id,
            handle,
            previous,
        ),
        t.unparked(other).describes(session_id, handle, previous),
        t.with_live(m).describes(session_id, handle, previous),
        (SetModel { live: t.live.remove(other), ..t }).describes(session_id, handle, previous),
        (SetModel { parked: t.parked.push(m.spec), ..t }).describes(session_id, handle, previous),
{
}

/// A push attaches and detaches nothing, and changes what no other session publishes.
pub proof fn law_push_touches_one_list(
    t: SetModel,
    session_id: u64,
    targets: Seq<Mode>,
    recovering: bool,
    adapter_present: bool,
    committed: PathsModel,
    other: u64,
)
    requires
        t.wf(),
    ensures
        ({
            let n = t.after_push_step(session_id, targets, recovering, adapter_present, committed);
            &&& n.live.dom() == t.live.dom()
            &&& n.parked.len() == t.parked.len()
            &&& other != session_id ==> n.live[other] == t.live[other]
            &&& t.live.dom().contains(session_id) ==> n.live[session_id].handle
                == t.live[session_id].handle && n.live[session_id].spec.monitor_modes
                == t.live[session_id].spec.monitor_modes
        }),
{
    let n = t.after_push_step(session_id, targets, recovering, adapter_present, committed);
    lemma_first_parked(t.parked, session_id);
    assert(t.live.dom().contains(session_id) ==> t.live[session_id].spec.session_id == session_id);
    assert(n.live.dom() =~= t.live.dom());
}

/// A call is made only for a list that the monitor describes and that keeps the
/// committed mode, as far as the monitor describes that.
pub proof fn law_push_never_evicts_committed(
    t: SetModel,
    session_id: u64,
    targets: Seq<Mode>,
    committed: PathsModel,
    mode: CommittedMode,
)
    requires
        t.wf(),
        t.push_step(session_id, targets, false, true, committed) is Call,
        committed.mode_on(t.live[session_id].handle) == Some(mode),
        crate::modepush::keeps(t.live[session_id].spec.monitor_modes, mode),
    ensures
        crate::modepush::keeps(targets, mode),
        crate::modepush::all_described(t.live[session_id].spec.monitor_modes, targets),
{
    crate::modepush::law_gate_never_evicts_committed(
        t.live[session_id].spec.monitor_modes,
        targets,
        mode,
    );
}

/// A monitor that is parked and attached again comes back with the list that was
/// pushed at it meanwhile.
pub proof fn law_parked_push_survives_recovery(
    t: SetModel,
    session_id: u64,
    targets: Seq<Mode>,
    recovering: bool,
    adapter_present: bool,
    committed: PathsModel,
)
    requires
        t.wf(),
        first_parked(t.parked, session_id) is Some,
        publishable(t.parked[first_parked(t.parked, session_id)->0].monitor_modes, targets),
    ensures
        ({
            let i = first_parked(t.parked, session_id)->0;
            let n = t.after_push_step(session_id, targets, recovering, adapter_present, committed);
            &&& n.parked[i].target_modes == targets
            &&& n.parked[i].session_id == session_id
            &&& n.wf()
        }),
{
    lemma_first_parked(t.parked, session_id);
    let i = first_parked(t.parked, session_id)->0;
    let n = t.after_push_step(session_id, targets, recovering, adapter_present, committed);
    assert(t.parked[i].wf());
    assert forall|j: int| 0 <= j < n.parked.len() implies (#[trigger] n.parked[j]).wf() by {
        assert(t.parked[j].wf());
    }
}

/// The parked monitor of a session is the one that was parked first.
pub proof fn law_first_parked_values(parked: Seq<SpecModel>, session_id: u64)
    ensures
        first_parked(parked, session_id) is Some <==> exists|j: int|
            0 <= j < parked.len() && (#[trigger] parked[j]).session_id == session_id,
        first_parked(parked, session_id) matches Some(i) ==> 0 <= i < parked.len()
            && parked[i].session_id == session_id && forall|j: int|
            0 <= j < i ==> (#[trigger] parked[j]).session_id != session_id,
{
    lemma_first_parked(parked, session_id);
    if let Some(i) = first_parked(parked, session_id) {
        assert(parked[i].session_id == session_id);
    }
}

/// What a push comes to before any call, with every code written out. An empty list fails
/// at stage 1. A parked monitor takes it over or fails. Otherwise a recovery defers it at
/// stage 3 and a missing adapter at stage 8, a session without a monitor fails at stage 0,
/// a list beyond the description at stage 9, and one that would take away the committed
/// mode is blocked with the place of that mode and the token of the record. All else is a
/// call at the monitor, which tells what was published before.
pub proof fn law_push_step_cases(
    t: SetModel,
    session_id: u64,
    targets: Seq<Mode>,
    recovering: bool,
    adapter_present: bool,
    committed: PathsModel,
)
    requires
        t.wf(),
        targets.len() <= u32::MAX,
    ensures
        ({
            let r = t.push_step(session_id, targets, recovering, adapter_present, committed);
            let n = targets.len();
            let parked = exists|j: int|
                0 <= j < t.parked.len() && (#[trigger] t.parked[j]).session_id == session_id;
            let at = n > 0 && !parked;
            let m = t.live[session_id];
            let live = t.live.dom().contains(session_id);
            let ready = at && !recovering && adapter_present && live;
            let g = gate(m.spec.monitor_modes, targets, committed.mode_on(m.handle));
            &&& n == 0 ==> r == PushStepModel::Done(
                PushOutcome::Failed { stage: 1, code: err::BAD_MODE, count: 0, rolled_back: false },
            )
            &&& n > 0 && parked ==> r == PushStepModel::Done(
                parked_outcome(t.parked[first_parked(t.parked, session_id)->0].monitor_modes, targets),
            )
            &&& at && recovering ==> r == PushStepModel::Done(
                PushOutcome::Deferred { stage: 3, count: n as u32 },
            )
            &&& at && !recovering && !adapter_present ==> r == PushStepModel::Done(
                PushOutcome::Deferred { stage: 8, count: n as u32 },
            )
            &&& at && !recovering && adapter_present && !live ==> r == PushStepModel::Done(
                PushOutcome::Failed {
                    stage: 0,
                    code: err::NO_SUCH_SESSION,
                    count: n as u32,
                    rolled_back: false,
                },
            )
            &&& ready && g is NotInSuperset ==> r == PushStepModel::Done(
                PushOutcome::Failed {
                    stage: 9,
                    code: err::BAD_MODE,
                    count: n as u32,
                    rolled_back: false,
                },
            )
            &&& ready ==> (g matches LiveGate::EvictsCommitted { committed: c, superset_idx } ==> r
                == PushStepModel::Done(
                PushOutcome::Blocked {
                    committed: c,
                    superset_idx,
                    token: committed.generation,
                    count: n as u32,
                },
            ))
            &&& ready && (g is Push || g is PushCommittedUnrecognised) ==> {
                &&& r is Call
                &&& r->handle == m.handle
                &&& r->previous == m.spec.target_modes
                &&& r->superset == m.spec.monitor_modes.len()
                &&& r->unrecognised is Some <==> g is PushCommittedUnrecognised
                &&& r->unrecognised matches Some(c) ==> committed.mode_on(m.handle) == Some(c)
            }
            &&& err::BAD_MODE == -3 && err::NO_SUCH_SESSION == -8
        }),
{
    law_first_parked_values(t.parked, session_id);
    crate::modepush::law_gate_stays_within_description(
        t.live[session_id].spec.monitor_modes,
        targets,
        committed.mode_on(t.live[session_id].handle),
    );
}

/// What a push leaves behind: a monitor at which a call is made publishes the list, a
/// parked one that took the list returns with it, and in every other case nothing has
/// changed. Everything else about the monitor stays.
pub proof fn law_push_effects(
    t: SetModel,
    session_id: u64,
    targets: Seq<Mode>,
    recovering: bool,
    adapter_present: bool,
    committed: PathsModel,
    i: int,
)
    requires
        t.wf(),
    ensures
        ({
            let r = t.push_step(session_id, targets, recovering, adapter_present, committed);
            let n = t.after_push_step(session_id, targets, recovering, adapter_present, committed);
            let at = first_parked(t.parked, session_id);
            &&& r is Call ==> {
                &&& n.parked == t.parked
                &&& n.live.dom() == t.live.dom()
                &&& n.live[session_id].spec.target_modes == targets
                &&& n.live[session_id].handle == t.live[session_id].handle
                &&& (SpecModel {
                    target_modes: t.live[session_id].spec.target_modes,
                    ..n.live[session_id].spec
                }) == t.live[session_id].spec
            }
            &&& r matches PushStepModel::Done(o) ==> {
                &&& n.live == t.live
                &&& !(o is AppliedParked) ==> n == t
                &&& o is AppliedParked ==> at is Some && n.parked.len() == t.parked.len()
                &&& o is AppliedParked && 0 <= i < t.parked.len() && Some(i) != at ==> n.parked[i]
                    == t.parked[i]
                &&& o is AppliedParked ==> n.parked[at->0] == (SpecModel {
                    target_modes: targets,
                    ..t.parked[at->0]
                })
            }
        }),
{
    let n = t.after_push_step(session_id, targets, recovering, adapter_present, committed);
    lemma_first_parked(t.parked, session_id);
    if t.push_step(session_id, targets, recovering, adapter_present, committed) is Call {
        assert(t.live[session_id].spec.session_id == session_id);
        assert(n.live.dom() =~= t.live.dom());
    }
}

/// When a list is put back: while the same monitor object is attached and still publishes
/// what was pushed at it. Then it publishes what it did before, and nothing else changes.
pub proof fn law_restore_cases(
    t: SetModel,
    session_id: u64,
    handle: u64,
    pushed: Seq<Mode>,
    previous: Seq<Mode>,
    other: u64,
)
    requires
        t.wf(),
    ensures
        ({
            let n = t.restored(session_id, handle, pushed, previous);
            let m = t.live[session_id];
            let same = t.live.dom().contains(session_id) && m.handle == handle
                && m.spec.target_modes == pushed;
            &&& t.can_restore(session_id, handle, pushed) <==> same
            &&& !same ==> n == t
            &&& same ==> n.live[session_id].spec.target_modes == previous
                && n.live[session_id].handle == handle && (SpecModel {
                target_modes: pushed,
                ..n.live[session_id].spec
            }) == m.spec
            &&& n.parked == t.parked
            &&& n.live.dom() == t.live.dom()
            &&& other != session_id ==> n.live[other] == t.live[other]
        }),
{
    let n = t.restored(session_id, handle, pushed, previous);
    assert(t.live.dom().contains(session_id) ==> t.live[session_id].spec.session_id == session_id);
    assert(n.live.dom() =~= t.live.dom());
}

/// Attaching puts a monitor under its session and touches no other; unparking takes out
/// the first parked monitor of the session and keeps the rest in order.
pub proof fn law_attach_and_unpark(t: SetModel, m: LiveModel, session_id: u64, other: u64, i: int)
    ensures
        ({
            let a = t.with_live(m);
            let u = t.unparked(session_id);
            &&& a.live.dom() == t.live.dom().insert(m.spec.session_id)
            &&& a.live[m.spec.session_id] == m
            &&& other != m.spec.session_id ==> a.live[other] == t.live[other]
            &&& a.parked == t.parked
            &&& u.live == t.live
            &&& first_parked(t.parked, session_id) is None ==> u.parked == t.parked
            &&& first_parked(t.parked, session_id) matches Some(k) ==> {
                &&& u.parked.len() == t.parked.len() - 1
                &&& 0 <= i < k ==> u.parked[i] == t.parked[i]
                &&& k <= i < u.parked.len() ==> u.parked[i] == t.parked[i + 1]
            }
        }),
{
    lemma_first_parked(t.parked, session_id);
    assert(t.with_live(m).live.dom() =~= t.live.dom().insert(m.spec.session_id));
}

/// Sessions are taken out in the order of the list, each once, and only where a monitor is
/// attached.
pub proof fn law_taken_step(live: Map<u64, LiveModel>, sessions: Seq<u64>, next: u64)
    ensures
        taken_in_order(live, sessions.push(next)) == (if live.dom().contains(next)
            && !sessions.contains(next) {
            taken_in_order(live, sessions).push(live[next])
        } else {
            taken_in_order(live, sessions)
        }),
        taken_in_order(live, Seq::empty()).len() == 0,
{
    assert(sessions.push(next).drop_last() =~= sessions);
}

/// Monitors are told apart by the bytes 8 to 15 of their EDIDs.
pub proof fn law_identity_octets_values(s: SpecModel, i: int)
    requires
        s.edid.len() == 256,
        0 <= i < 8,
    ensures
        s.identity_octets().len() == 8,
        s.identity_octets()[i] == s.edid[8 + i],
{
}

} // verus!
