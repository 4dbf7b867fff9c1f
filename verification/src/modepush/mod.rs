//! The decisions behind publishing another target list on a live monitor: where a
//! request stops, whether an outcome changes what the monitor publishes, and whether
//! a list would gate out the mode the display is running.
use vstd::prelude::*;

use crate::modes::{holds_mode, Mode};
use crate::proto::err;
use crate::session::ModeUpdateResult;

pub mod committed;
pub mod protocol;
pub mod stage;

pub use committed::{CommittedMode, CommittedPaths, MAX_COMMITTED_PATHS};

verus! {

/// The token of what is committed now. A remembered refusal counts only while it has
/// not moved.
pub fn committed_token(committed: &CommittedPaths) -> (r: u64)
    ensures
        r == committed@.generation,
{
    committed.generation()
}

/// What a push did with a target list.
#[derive(Clone, Copy, Debug, PartialEq, Eq, Structural)]
pub enum PushOutcome {
    /// The operating system took the list.
    Applied { published: u32, superset: u32 },
    /// The monitor was parked, so the list it will come back with was changed.
    AppliedParked { published: u32, superset: u32 },
    /// Nothing was called and nothing changed; the same request can succeed later.
    Deferred { stage: u32, count: u32 },
    /// Refused: the list would gate out the committed mode, which stands at
    /// `superset_idx` of the monitor's description. A retry cannot succeed while
    /// `token` stands.
    Blocked { committed: CommittedMode, superset_idx: u32, token: u64, count: u32 },
    /// The operating system refused, or there was nothing to push at, or the list
    /// named modes the monitor does not have.
    Failed { stage: u32, code: i32, count: u32, rolled_back: bool },
}

impl PushOutcome {
    /// The published list really changed.
    pub open spec fn changed_list(self) -> bool {
        self is Applied || self is AppliedParked
    }

    /// What the session table hears of it.
    pub open spec fn reported(self) -> ModeUpdateResult {
        match self {
            PushOutcome::Applied { published: _, superset: _ } => ModeUpdateResult::Applied,
            PushOutcome::AppliedParked { published: _, superset: _ } => ModeUpdateResult::Applied,
            PushOutcome::Blocked { committed: _, superset_idx, token, count: _ } => {
                ModeUpdateResult::Blocked { superset_idx, token }
            },
            _ => ModeUpdateResult::NotApplied,
        }
    }

    /// The one mapping from what a push did to what the table is told.
    pub fn settle_result(self) -> (r: ModeUpdateResult)
        ensures
            r == self.reported(),
    {
        if self.commits() {
            return ModeUpdateResult::Applied;
        }
        match self {
            PushOutcome::Blocked { superset_idx, token, .. } => {
                ModeUpdateResult::Blocked { superset_idx, token }
            },
            _ => ModeUpdateResult::NotApplied,
        }
    }

    /// Whether the identical request can have another outcome.
    pub fn retryable(self) -> (r: bool)
        ensures
            r == !(self is Blocked),
    {
        !matches!(self, PushOutcome::Blocked { .. })
    }

    /// Whether the published list really changed.
    pub fn commits(self) -> (r: bool)
        ensures
            r == self.changed_list(),
    {
        matches!(self, PushOutcome::Applied { .. } | PushOutcome::AppliedParked { .. })
    }
}

/// An outcome is reported as applied exactly when it changed the published list, and
/// as blocked exactly when a retry is pointless.
pub proof fn law_report_matches_outcome(o: PushOutcome)
    ensures
        o.reported() is Applied <==> o.changed_list(),
        o.reported() is Blocked <==> o is Blocked,
        o.changed_list() ==> !(o is Blocked),
{
}

/// Every target is one of the monitor's modes.
pub open spec fn all_described(superset: Seq<Mode>, targets: Seq<Mode>) -> bool {
    forall|i: int| 0 <= i < targets.len() ==> superset.contains(#[trigger] targets[i])
}

fn are_described(superset: &[Mode], targets: &[Mode]) -> (r: bool)
    ensures
        r == all_described(superset@, targets@),
{
    let mut i: usize = 0;
    while i < targets.len()
        invariant
            i <= targets@.len(),
            forall|j: int| 0 <= j < i ==> superset@.contains(#[trigger] targets@[j]),
        decreases targets@.len() - i,
    {
        if !holds_mode(superset, &targets[i]) {
            return false;
        }
        i += 1;
    }
    true
}

/// What a push at a parked monitor comes to.
pub open spec fn parked_outcome(superset: Seq<Mode>, targets: Seq<Mode>) -> PushOutcome {
    if targets.len() == 0 {
        PushOutcome::Failed { stage: stage::EMPTY, code: err::BAD_MODE, count: 0, rolled_back: false }
    } else if !all_described(superset, targets) {
        PushOutcome::Failed {
            stage: stage::NOT_IN_SUPERSET,
            code: err::BAD_MODE,
            count: targets.len() as u32,
            rolled_back: false,
        }
    } else {
        PushOutcome::AppliedParked { published: targets.len() as u32, superset: superset.len() as u32 }
    }
}

/// Decide what a push at a parked monitor does. There is nothing to call, but
/// changing the list it comes back with changes what it publishes, so that counts as
/// applied.
pub fn parked_push(parked_superset: &[Mode], targets: &[Mode]) -> (r: PushOutcome)
    requires
        parked_superset@.len() <= u32::MAX,
        targets@.len() <= u32::MAX,
    ensures
        r == parked_outcome(parked_superset@, targets@),
{
    let count: u32 = targets.len() as u32;
    if count == 0 {
        return PushOutcome::Failed {
            stage: stage::EMPTY,
            code: err::BAD_MODE,
            count: 0,
            rolled_back: false,
        };
    }
    if !are_described(parked_superset, targets) {
        return PushOutcome::Failed {
            stage: stage::NOT_IN_SUPERSET,
            code: err::BAD_MODE,
            count,
            rolled_back: false,
        };
    }
    PushOutcome::AppliedParked { published: count, superset: parked_superset.len() as u32 }
}

/// What a target list may do to a live monitor.
#[derive(Clone, Copy, Debug, PartialEq, Eq, Structural)]
pub enum LiveGate {
    /// Publish it.
    Push,
    /// Publish it, though the committed mode is not one the monitor describes, so
    /// that nothing could be said about it.
    PushCommittedUnrecognised(CommittedMode),
    /// A target is not one of the monitor's modes.
    NotInSuperset,
    /// The list would gate out the committed mode, which stands at `superset_idx` of
    /// the monitor's description.
    EvictsCommitted { committed: CommittedMode, superset_idx: u32 },
}

impl LiveGate {
    /// The verdict allows the push.
    pub open spec fn allows(self) -> bool {
        self is Push || self is PushCommittedUnrecognised
    }

    pub fn pushes(self) -> (r: bool)
        ensures
            r == self.allows(),
    {
        matches!(self, LiveGate::Push | LiveGate::PushCommittedUnrecognised(_))
    }
}

/// Some mode of the list is the committed one.
pub open spec fn keeps(modes: Seq<Mode>, committed: CommittedMode) -> bool {
    exists|i: int| 0 <= i < modes.len() && committed.matches_mode(#[trigger] modes[i])
}

/// The first mode of the list that is the committed one.
pub open spec fn index_of_committed(modes: Seq<Mode>, committed: CommittedMode) -> Option<u32>
    decreases modes.len(),
{
    if modes.len() == 0 {
        None
    } else {
        match index_of_committed(modes.drop_last(), committed) {
            Some(i) => Some(i),
            None => if committed.matches_mode(modes.last()) {
                Some((modes.len() - 1) as u32)
            } else {
                None
            },
        }
    }
}

/// The verdict on a target list. What the operating system has selected is never
/// taken away, as far as the monitor describes it.
pub open spec fn gate(superset: Seq<Mode>, targets: Seq<Mode>, committed: Option<CommittedMode>) -> LiveGate {
    if !all_described(superset, targets) {
        LiveGate::NotInSuperset
    } else {
        match committed {
            None => LiveGate::Push,
            Some(c) => match index_of_committed(superset, c) {
                None => LiveGate::PushCommittedUnrecognised(c),
                Some(superset_idx) => if keeps(targets, c) {
                    LiveGate::Push
                } else {
                    LiveGate::EvictsCommitted { committed: c, superset_idx }
                },
            },
        }
    }
}

/// Decide whether a target list may be pushed at a live monitor.
pub fn live_gate(superset: &[Mode], targets: &[Mode], committed: Option<CommittedMode>) -> (r: LiveGate)
    requires
        superset@.len() <= u32::MAX,
        targets@.len() <= u32::MAX,
    ensures
        r == gate(superset@, targets@, committed),
{
    if !are_described(superset, targets) {
        return LiveGate::NotInSuperset;
    }
    match committed {
        None => LiveGate::Push,
        Some(c) => match superset_index_of(superset, c) {
            None => LiveGate::PushCommittedUnrecognised(c),
            Some(superset_idx) => {
                let kept: Option<u32> = superset_index_of(targets, c);
                proof {
                    lemma_index_of_committed(targets@, c);
                }
                if kept.is_none() {
                    LiveGate::EvictsCommitted { committed: c, superset_idx }
                } else {
                    LiveGate::Push
                }
            },
        },
    }
}

/// Where the committed mode stands in a monitor's description, if it does.
pub fn superset_index_of(superset: &[Mode], committed: CommittedMode) -> (r: Option<u32>)
    requires
        superset@.len() <= u32::MAX,
    ensures
        r == index_of_committed(superset@, committed),
{
    let mut i: usize = 0;
    assert(superset@.take(0) =~= Seq::<Mode>::empty());
    while i < superset.len()
        invariant
            i <= superset@.len() <= u32::MAX,
            index_of_committed(superset@.take(i as int), committed) is None,
        decreases superset@.len() - i,
    {
        proof {
            assert(superset@.take(i + 1).drop_last() =~= superset@.take(i as int));
            assert(superset@.take(i + 1).last() == superset@[i as int]);
        }
        if committed.is(&superset[i]) {
            proof {
                lemma_index_prefix(superset@, i + 1, committed);
            }
            return Some(i as u32);
        }
        i += 1;
    }
    assert(superset@.take(i as int) =~= superset@);
    None
}

proof fn lemma_index_prefix(modes: Seq<Mode>, n: int, committed: CommittedMode)
    requires
        0 <= n <= modes.len(),
        index_of_committed(modes.take(n), committed) is Some,
    ensures
        index_of_committed(modes, committed) == index_of_committed(modes.take(n), committed),
    decreases modes.len(),
{
    if n < modes.len() {
        assert(modes.drop_last().take(n) =~= modes.take(n));
        lemma_index_prefix(modes.drop_last(), n, committed);
    } else {
        assert(modes.take(n) =~= modes);
    }
}

/// The index is there exactly when the committed mode is, and is the first place
/// where it stands.
pub proof fn lemma_index_of_committed(modes: Seq<Mode>, committed: CommittedMode)
    requires
        modes.len() <= u32::MAX,
    ensures
        index_of_committed(modes, committed) is Some <==> keeps(modes, committed),
        index_of_committed(modes, committed) matches Some(i) ==> i < modes.len()
            && committed.matches_mode(modes[i as int]) && forall|j: int|
            0 <= j < i ==> !committed.matches_mode(#[trigger] modes[j]),
    decreases modes.len(),
{
    if modes.len() > 0 {
        let rest = modes.drop_last();
        lemma_index_of_committed(rest, committed);
        assert forall|j: int| 0 <= j < rest.len() implies #[trigger] modes[j] == rest[j] by {}
        if keeps(rest, committed) {
            let j = choose|j: int| 0 <= j < rest.len() && committed.matches_mode(#[trigger] rest[j]);
            assert(committed.matches_mode(modes[j]));
        }
        if keeps(modes, committed) {
            let j = choose|j: int| 0 <= j < modes.len() && committed.matches_mode(#[trigger] modes[j]);
            if j < rest.len() {
                assert(committed.matches_mode(rest[j]));
            }
        }
    }
}

/// The monitor mode to report as preferred: the first reported one that is on offer,
/// or 0 when none is.
pub open spec fn preferred_index(monitor_modes: Seq<Mode>, targets: Seq<Mode>, fill: nat) -> u32
    decreases fill,
{
    if fill == 0 {
        0
    } else {
        let before = preferred_index(monitor_modes, targets, (fill - 1) as nat);
        if offered_below(monitor_modes, targets, (fill - 1) as int) {
            before
        } else if fill <= monitor_modes.len() && targets.contains(monitor_modes[fill - 1]) {
            (fill - 1) as u32
        } else {
            0
        }
    }
}

/// One of the first `n` monitor modes is on offer.
pub open spec fn offered_below(monitor_modes: Seq<Mode>, targets: Seq<Mode>, n: int) -> bool {
    exists|i: int|
        0 <= i < n && i < monitor_modes.len() && targets.contains(#[trigger] monitor_modes[i])
}

/// The preferred monitor mode, given that the first `fill` modes are reported. The
/// display shows what is both described and published, so a preferred mode that is
/// not published could never be activated.
pub fn preferred_monitor_mode_idx(monitor_modes: &[Mode], targets: &[Mode], fill: usize) -> (r: u32)
    requires
        monitor_modes@.len() <= u32::MAX,
    ensures
        r == preferred_index(monitor_modes@, targets@, fill as nat),
{
    let limit: usize = if fill < monitor_modes.len() {
        fill
    } else {
        monitor_modes.len()
    };
    let mut i: usize = 0;
    while i < limit
        invariant
            i <= limit,
            limit <= fill,
            limit <= monitor_modes@.len() <= u32::MAX,
            !offered_below(monitor_modes@, targets@, i as int),
        decreases limit - i,
    {
        if holds_mode(targets, &monitor_modes[i]) {
            proof {
                assert(offered_below(monitor_modes@, targets@, i + 1));
                lemma_preferred_found(monitor_modes@, targets@, fill as nat, i as int);
            }
            return i as u32;
        }
        i += 1;
    }
    proof {
        lemma_preferred_none(monitor_modes@, targets@, fill as nat);
    }
    0
}

proof fn lemma_preferred_found(monitor_modes: Seq<Mode>, targets: Seq<Mode>, fill: nat, i: int)
    requires
        0 <= i < fill,
        i < monitor_modes.len() <= u32::MAX,
        targets.contains(monitor_modes[i]),
        !offered_below(monitor_modes, targets, i),
    ensures
        preferred_index(monitor_modes, targets, fill) == i,
    decreases fill,
{
    if fill - 1 > i {
        lemma_preferred_found(monitor_modes, targets, (fill - 1) as nat, i);
        assert(targets.contains(monitor_modes[i]));
        assert(offered_below(monitor_modes, targets, fill - 1));
    }
}

pub proof fn lemma_preferred_none(monitor_modes: Seq<Mode>, targets: Seq<Mode>, fill: nat)
    requires
        !offered_below(monitor_modes, targets, fill as int),
    ensures
        preferred_index(monitor_modes, targets, fill) == 0,
    decreases fill,
{
    if fill > 0 {
        if offered_below(monitor_modes, targets, fill - 1) {
            let i = choose|i: int|
                0 <= i < fill - 1 && i < monitor_modes.len() && targets.contains(
                    #[trigger] monitor_modes[i],
                );
            assert(targets.contains(monitor_modes[i]));
            assert(offered_below(monitor_modes, targets, fill as int));
        }
        lemma_preferred_none(monitor_modes, targets, (fill - 1) as nat);
        if fill <= monitor_modes.len() && targets.contains(monitor_modes[fill - 1]) {
            assert(offered_below(monitor_modes, targets, fill as int));
        }
    }
}

/// A push that is allowed never takes away the committed mode, as long as the
/// monitor describes that mode.
pub proof fn law_gate_never_evicts_committed(
    superset: Seq<Mode>,
    targets: Seq<Mode>,
    committed: CommittedMode,
)
    requires
        superset.len() <= u32::MAX,
        gate(superset, targets, Some(committed)).allows(),
        keeps(superset, committed),
    ensures
        keeps(targets, committed),
{
    lemma_index_of_committed(superset, committed);
}

/// No push is allowed of anything that the monitor does not describe.
pub proof fn law_gate_stays_within_description(
    superset: Seq<Mode>,
    targets: Seq<Mode>,
    committed: Option<CommittedMode>,
)
    ensures
        gate(superset, targets, committed).allows() ==> all_described(superset, targets),
        !all_described(superset, targets) ==> gate(superset, targets, committed)
            == LiveGate::NotInSuperset,
{
}

/// A refusal names the mode that is in the way: it is the committed one, the monitor
/// describes it there, and keeping it lifts the refusal.
pub proof fn law_refusal_names_the_blocker(
    superset: Seq<Mode>,
    targets: Seq<Mode>,
    committed: CommittedMode,
    other: Seq<Mode>,
)
    requires
        superset.len() <= u32::MAX,
        all_described(superset, other),
    ensures
        gate(superset, targets, Some(committed)) matches LiveGate::EvictsCommitted {
            committed: c,
            superset_idx,
        } ==> c == committed && superset_idx < superset.len() && committed.matches_mode(
            superset[superset_idx as int],
        ) && !keeps(targets, committed) && (other.contains(superset[superset_idx as int]) ==> gate(
            superset,
            other,
            Some(committed),
        ) == LiveGate::Push),
{
    lemma_index_of_committed(superset, committed);
    if let LiveGate::EvictsCommitted { committed: c, superset_idx } = gate(
        superset,
        targets,
        Some(committed),
    ) {
        let m = superset[superset_idx as int];
        if other.contains(m) {
            let j = other.index_of(m);
            assert(committed.matches_mode(other[j]));
        }
    }
}

/// The preferred index names a reported mode that is on offer, whenever one is.
pub proof fn law_preferred_mode_is_offered(monitor_modes: Seq<Mode>, targets: Seq<Mode>, fill: nat)
    requires
        monitor_modes.len() <= u32::MAX,
        offered_below(monitor_modes, targets, fill as int),
    ensures
        preferred_index(monitor_modes, targets, fill) < fill,
        preferred_index(monitor_modes, targets, fill) < monitor_modes.len(),
        targets.contains(monitor_modes[preferred_index(monitor_modes, targets, fill) as int]),
    decreases fill,
{
    if fill > 0 {
        if offered_below(monitor_modes, targets, fill - 1) {
            law_preferred_mode_is_offered(monitor_modes, targets, (fill - 1) as nat);
        } else {
            let i = choose|i: int|
                0 <= i < fill && i < monitor_modes.len() && targets.contains(
                    #[trigger] monitor_modes[i],
                );
            if i < fill - 1 {
                assert(targets.contains(monitor_modes[i]));
                assert(offered_below(monitor_modes, targets, fill - 1));
            }
        }
    }
}

/// The preferred index is the first that is on offer.
pub proof fn lemma_preferred_first(monitor_modes: Seq<Mode>, targets: Seq<Mode>, fill: nat, i: int)
    requires
        monitor_modes.len() <= u32::MAX,
    ensures
        0 <= i < fill && i < monitor_modes.len() && targets.contains(monitor_modes[i]) ==> {
            let p = preferred_index(monitor_modes, targets, fill);
            p <= i && p < monitor_modes.len() && targets.contains(monitor_modes[p as int])
        },
        (forall|j: int|
            0 <= j < fill && j < monitor_modes.len() ==> !targets.contains(
                #[trigger] monitor_modes[j],
            )) ==> preferred_index(monitor_modes, targets, fill) == 0,
    decreases i,
{
    if 0 <= i < fill && i < monitor_modes.len() && targets.contains(monitor_modes[i]) {
        if offered_below(monitor_modes, targets, i) {
            let j = choose|j: int|
                0 <= j < i && j < monitor_modes.len() && targets.contains(
                    #[trigger] monitor_modes[j],
                );
            lemma_preferred_first(monitor_modes, targets, fill, j);
        } else {
            lemma_preferred_found(monitor_modes, targets, fill, i);
        }
    }
    if forall|j: int|
        0 <= j < fill && j < monitor_modes.len() ==> !targets.contains(#[trigger] monitor_modes[j]) {
        lemma_preferred_none(monitor_modes, targets, fill);
    }
}

/// What a push at a parked monitor comes to: nothing to publish is an error at stage 1, a
/// mode the monitor does not describe one at stage 9; anything else is taken over, with
/// both counts told.
pub proof fn law_parked_push_values(superset: Seq<Mode>, targets: Seq<Mode>)
    requires
        superset.len() <= u32::MAX,
        targets.len() <= u32::MAX,
    ensures
        ({
            let o = parked_outcome(superset, targets);
            let within = forall|i: int|
                0 <= i < targets.len() ==> superset.contains(#[trigger] targets[i]);
            &&& targets.len() == 0 ==> o is Failed && o->Failed_stage == 1 && o->code == -3
                && o->Failed_count == 0 && !o->rolled_back
            &&& targets.len() > 0 && !within ==> o is Failed && o->Failed_stage == 9 && o->code == -3
                && o->Failed_count == targets.len() && !o->rolled_back
            &&& targets.len() > 0 && within ==> o is AppliedParked && o->AppliedParked_published
                == targets.len() && o->AppliedParked_superset == superset.len()
        }),
{
}

/// The verdict on a list, by the size and rate of its modes: it has to stay within the
/// description; and where the description holds the committed size and rate, the list has
/// to hold it too, or it is refused with the first place where the description does.
pub proof fn law_gate_cases(superset: Seq<Mode>, targets: Seq<Mode>, committed: CommittedMode, i: int)
    requires
        superset.len() <= u32::MAX,
    ensures
        ({
            let g = gate(superset, targets, Some(committed));
            let within = forall|j: int|
                0 <= j < targets.len() ==> superset.contains(#[trigger] targets[j]);
            let same = |m: Mode|
                m.width == committed.width && m.height == committed.height && m.refresh_millihz
                    == committed.refresh_millihz;
            let described = exists|j: int| 0 <= j < superset.len() && same(#[trigger] superset[j]);
            let kept = exists|j: int| 0 <= j < targets.len() && same(#[trigger] targets[j]);
            &&& gate(superset, targets, None) == (if within {
                LiveGate::Push
            } else {
                LiveGate::NotInSuperset
            })
            &&& g is NotInSuperset <==> !within
            &&& g is PushCommittedUnrecognised <==> within && !described
            &&& g is PushCommittedUnrecognised ==> g->0 == committed
            &&& g is Push <==> within && described && kept
            &&& g is EvictsCommitted <==> within && described && !kept
            &&& g matches LiveGate::EvictsCommitted { committed: c, superset_idx } ==> {
                &&& c == committed
                &&& superset_idx < superset.len()
                &&& same(superset[superset_idx as int])
                &&& 0 <= i < superset_idx ==> !same(superset[i])
            }
        }),
{
    lemma_index_of_committed(superset, committed);
    let same = |m: Mode|
        m.width == committed.width && m.height == committed.height && m.refresh_millihz
            == committed.refresh_millihz;
    if keeps(superset, committed) {
        let j = choose|j: int| 0 <= j < superset.len() && committed.matches_mode(#[trigger] superset[j]);
        assert(same(superset[j]));
    }
    if exists|j: int| 0 <= j < superset.len() && same(#[trigger] superset[j]) {
        let j = choose|j: int| 0 <= j < superset.len() && same(#[trigger] superset[j]);
        assert(committed.matches_mode(superset[j]));
    }
    if keeps(targets, committed) {
        let j = choose|j: int| 0 <= j < targets.len() && committed.matches_mode(#[trigger] targets[j]);
        assert(same(targets[j]));
    }
    if exists|j: int| 0 <= j < targets.len() && same(#[trigger] targets[j]) {
        let j = choose|j: int| 0 <= j < targets.len() && same(#[trigger] targets[j]);
        assert(committed.matches_mode(targets[j]));
    }
}

/// What the session table hears of each outcome.
pub proof fn law_report_values(a: u32, b: u32, code: i32, rolled_back: bool, c: CommittedMode, token: u64)
    ensures
        (PushOutcome::Applied { published: a, superset: b }).reported() == ModeUpdateResult::Applied,
        (PushOutcome::AppliedParked { published: a, superset: b }).reported()
            == ModeUpdateResult::Applied,
        (PushOutcome::Deferred { stage: a, count: b }).reported() == ModeUpdateResult::NotApplied,
        (PushOutcome::Failed { stage: a, code, count: b, rolled_back }).reported()
            == ModeUpdateResult::NotApplied,
        (PushOutcome::Blocked { committed: c, superset_idx: a, token, count: b }).reported() == (
        ModeUpdateResult::Blocked { superset_idx: a, token }),
{
}

} // verus!
