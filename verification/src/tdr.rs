//! Recovery signalling after a GPU reset.
//!
//! A frame worker publishes when it goes live and when it leaves; a poller that
//! waits for the transport to come back reads that and nothing else. A live worker
//! holds the ring's lock for as long as it runs, so asking for the lock would take
//! every ring that has recovered for one that has not.
use vstd::prelude::*;

use crate::dispatch::TDR_DUCK_DEVICE;
use crate::proto::ring_state;

verus! {

/// The transport state of one monitor, readable without the ring's lock.
#[derive(Clone, Copy, Debug)]
pub struct RingLive {
    /// There is a shared section at all. Without one there is nothing to restore.
    pub transport: bool,
    /// One of `ring_state::*`, as in the shared section.
    pub state: u32,
    /// A frame worker has its device and has not returned.
    pub worker_live: bool,
    /// How often a worker has gone live.
    pub live_generation: u64,
}

impl RingLive {
    /// Nothing left to wait for: no transport, or one that is not being rebuilt.
    pub open spec fn is_settled(self) -> bool {
        !self.transport || self.state != ring_state::REBUILDING
    }

    /// A worker is publishing right now.
    pub open spec fn is_publishing(self) -> bool {
        self.worker_live && self.state == ring_state::ACTIVE
    }

    pub open spec fn with_state(self, state: u32) -> RingLive {
        RingLive { state, ..self }
    }

    pub open spec fn gone_live(self) -> RingLive {
        RingLive {
            state: ring_state::ACTIVE,
            worker_live: true,
            live_generation: (self.live_generation + 1) as u64,
            ..self
        }
    }

    pub open spec fn worker_gone(self) -> RingLive {
        RingLive { worker_live: false, ..self }
    }

    pub fn new(transport_present: bool) -> (r: Self)
        ensures
            r == (RingLive {
                transport: transport_present,
                state: ring_state::ACTIVE,
                worker_live: false,
                live_generation: 0,
            }),
    {
        RingLive {
            transport: transport_present,
            state: ring_state::ACTIVE,
            worker_live: false,
            live_generation: 0,
        }
    }

    /// Mirror a change of the ring's state.
    pub fn publish_state(&mut self, state: u32)
        ensures
            *final(self) == old(self).with_state(state),
    {
        self.state = state;
    }

    /// A worker got its device and the ring is active. Returns how often that has
    /// happened now.
    pub fn publish_worker_live(&mut self) -> (r: u64)
        requires
            old(self).live_generation < u64::MAX,
        ensures
            *final(self) == old(self).gone_live(),
            r == old(self).live_generation + 1,
    {
        self.live_generation += 1;
        self.state = ring_state::ACTIVE;
        self.worker_live = true;
        self.live_generation
    }

    /// The worker returned. That alone is no failure, so the state stays.
    pub fn publish_worker_exit(&mut self)
        ensures
            *final(self) == old(self).worker_gone(),
    {
        self.worker_live = false;
    }

    pub fn state(&self) -> (r: u32)
        ensures
            r == self.state,
    {
        self.state
    }

    pub fn live_generation(&self) -> (r: u64)
        ensures
            r == self.live_generation,
    {
        self.live_generation
    }

    /// A worker is publishing right now; such a display is not to be disturbed.
    pub fn publishing(&self) -> (r: bool)
        ensures
            r == self.is_publishing(),
    {
        self.worker_live && self.state() == ring_state::ACTIVE
    }

    /// Nothing is left to wait for on this ring.
    pub fn settled(&self) -> (r: bool)
        ensures
            r == self.is_settled(),
    {
        !self.transport || self.state() != ring_state::REBUILDING
    }
}

/// What one tick of the poller found.
#[derive(Clone, Copy, Debug, PartialEq, Eq, Structural)]
pub enum RingTick {
    /// Not back yet; the heartbeat was refreshed.
    Rebuilding,
    /// Nothing left to keep alive.
    Settled,
    /// Not back yet, and the lock could not be had to refresh the heartbeat.
    HeartbeatBlocked,
}

impl RingTick {
    /// The ring still needs watching.
    pub fn is_pending(self) -> (r: bool)
        ensures
            r == !(self is Settled),
    {
        !matches!(self, RingTick::Settled)
    }
}

/// What a tick finds.
pub open spec fn tick_of(live: RingLive, lock_available: bool) -> RingTick {
    if live.is_settled() {
        RingTick::Settled
    } else if lock_available {
        RingTick::Rebuilding
    } else {
        RingTick::HeartbeatBlocked
    }
}

/// Decide one tick. The lock only says whether the heartbeat of a ring that is not
/// back could be refreshed, never whether it is back.
pub fn ring_tick(live: &RingLive, lock_available: bool) -> (r: RingTick)
    ensures
        r == tick_of(*live, lock_available),
{
    if live.settled() {
        return RingTick::Settled;
    }
    if !lock_available {
        return RingTick::HeartbeatBlocked;
    }
    RingTick::Rebuilding
}

/// How often the poller looks.
pub const RECOVERY_POLL_MS: u64 = 250;

/// How long the operating system gets to bring transports back by itself once the adapter
/// is healthy again.
pub const REQUALIFY_AFTER_MS: u64 = 10000;

/// How long a lost adapter gets to return.
pub const RECOVERY_DEADLINE_MS: u64 = 600000;

/// What the poller found of one ring.
#[derive(Clone, Copy, Debug, PartialEq, Eq, Structural)]
pub struct RingLook {
    pub session_id: u64,
    /// The adapter its monitor renders on.
    pub adapter_luid: u64,
    pub tick: RingTick,
}

/// The sessions on an adapter whose rings are not back, in the order they were looked at.
/// Monitors on another adapter are not drawn in.
pub open spec fn pending_sessions(looks: Seq<RingLook>, luid: u64) -> Seq<u64>
    decreases looks.len(),
{
    if looks.len() == 0 {
        Seq::empty()
    } else {
        let before = pending_sessions(looks.drop_last(), luid);
        let l = looks.last();
        if l.adapter_luid == luid && !(l.tick is Settled) {
            before.push(l.session_id)
        } else {
            before
        }
    }
}

pub fn pending_on(looks: &[RingLook], luid: u64) -> (r: Vec<u64>)
    ensures
        r@ == pending_sessions(looks@, luid),
{
    let mut out: Vec<u64> = Vec::new();
    let mut i: usize = 0;
    assert(looks@.take(0) =~= Seq::<RingLook>::empty());
    while i < looks.len()
        invariant
            i <= looks@.len(),
            out@ == pending_sessions(looks@.take(i as int), luid),
        decreases looks@.len() - i,
    {
        proof {
            assert(looks@.take(i + 1).drop_last() =~= looks@.take(i as int));
            assert(looks@.take(i + 1).last() == looks@[i as int]);
        }
        if looks[i].adapter_luid == luid && looks[i].tick.is_pending() {
            out.push(looks[i].session_id);
        }
        i += 1;
    }
    assert(looks@.take(i as int) =~= looks@);
    out
}

/// What a recovery does next.
#[derive(Clone, Copy, Debug, PartialEq, Eq, Structural)]
pub enum RecoveryStep {
    /// Look again soon.
    Wait,
    /// Make the monitors of the sessions that are still pending depart and return.
    DepartPending,
    /// Make every monitor depart and return.
    DepartAll,
    /// Everything is back.
    Done,
}

/// How a recovery goes on, with `pending` rings not back after `waited_ms`.
pub open spec fn recovery_of(
    tdr_duck_mode: u32,
    waited_ms: u64,
    adapter_back: bool,
    pending: nat,
) -> RecoveryStep {
    if tdr_duck_mode != TDR_DUCK_DEVICE {
        RecoveryStep::DepartAll
    } else if pending == 0 {
        RecoveryStep::Done
    } else if waited_ms >= RECOVERY_DEADLINE_MS || (adapter_back && waited_ms
        >= REQUALIFY_AFTER_MS) {
        RecoveryStep::DepartPending
    } else {
        RecoveryStep::Wait
    }
}

/// Decide how a recovery goes on. When only the device is given up, the displays stay
/// attached: one departs only if its transport does not return on an adapter that has,
/// or if the adapter does not return for very long. The other response takes every
/// display off at once.
pub fn recovery_step(tdr_duck_mode: u32, waited_ms: u64, adapter_back: bool, pending: usize) -> (r:
    RecoveryStep)
    ensures
        r == recovery_of(tdr_duck_mode, waited_ms, adapter_back, pending as nat),
{
    if tdr_duck_mode != TDR_DUCK_DEVICE {
        RecoveryStep::DepartAll
    } else if pending == 0 {
        RecoveryStep::Done
    } else if waited_ms >= RECOVERY_DEADLINE_MS || (adapter_back && waited_ms
        >= REQUALIFY_AFTER_MS) {
        RecoveryStep::DepartPending
    } else {
        RecoveryStep::Wait
    }
}

/// The sessions in a list that are still pending. A ring may have come back since the
/// list was made.
pub fn still_pending(listed: &[u64], pending: &[u64]) -> (r: Vec<u64>)
    ensures
        r@ == listed@.filter(|s: u64| pending@.contains(s)),
{
    let ghost keep = |s: u64| pending@.contains(s);
    let mut out: Vec<u64> = Vec::new();
    let mut i: usize = 0;
    proof {
        reveal(Seq::filter);
        assert(listed@.take(0).filter(keep) =~= Seq::<u64>::empty());
    }
    while i < listed.len()
        invariant
            i <= listed@.len(),
            keep == (|s: u64| pending@.contains(s)),
            out@ == listed@.take(i as int).filter(keep),
        decreases listed@.len() - i,
    {
        proof {
            reveal(Seq::filter);
            assert(listed@.take(i + 1).drop_last() =~= listed@.take(i as int));
            assert(listed@.take(i + 1).last() == listed@[i as int]);
        }
        if crate::identity::holds_id(pending, listed[i]) {
            out.push(listed[i]);
        }
        i += 1;
    }
    assert(listed@.take(i as int) =~= listed@);
    out
}

/// What follows once monitors have departed.
#[derive(Clone, Copy, Debug, PartialEq, Eq, Structural)]
pub enum ReturnStep {
    /// Wait for the adapter.
    Wait,
    /// Attach the parked monitors again.
    Replug,
    /// The adapter does not return: give the parked monitors up.
    GiveUp,
    /// The device was torn down meanwhile; there is nothing to attach.
    Stale,
}

/// When departed monitors return.
pub open spec fn return_of(
    expected_epoch: u64,
    epoch: u64,
    adapter_back: bool,
    waited_ms: u64,
) -> ReturnStep {
    if epoch != expected_epoch {
        ReturnStep::Stale
    } else if adapter_back {
        ReturnStep::Replug
    } else if waited_ms < RECOVERY_DEADLINE_MS {
        ReturnStep::Wait
    } else {
        ReturnStep::GiveUp
    }
}

/// Decide when departed monitors return: once their adapter is back, and only under the
/// adapter object they departed from.
pub fn return_step(expected_epoch: u64, epoch: u64, adapter_back: bool, waited_ms: u64) -> (r:
    ReturnStep)
    ensures
        r == return_of(expected_epoch, epoch, adapter_back, waited_ms),
{
    if epoch != expected_epoch {
        ReturnStep::Stale
    } else if adapter_back {
        ReturnStep::Replug
    } else if waited_ms < RECOVERY_DEADLINE_MS {
        ReturnStep::Wait
    } else {
        ReturnStep::GiveUp
    }
}

/// When only the device is given up, no display departs while its adapter is down, short
/// of the long deadline, nor before the operating system has had time on a healthy one;
/// and no departed display returns without its adapter.
pub proof fn law_displays_stay_attached(
    waited_ms: u64,
    adapter_back: bool,
    pending: nat,
    expected_epoch: u64,
    epoch: u64,
)
    ensures
        waited_ms < REQUALIFY_AFTER_MS || (!adapter_back && waited_ms < RECOVERY_DEADLINE_MS) ==> {
            let step = recovery_of(TDR_DUCK_DEVICE, waited_ms, adapter_back, pending);
            step is Wait || step is Done
        },
        return_of(expected_epoch, epoch, adapter_back, waited_ms) is Replug ==> adapter_back
            && epoch == expected_epoch,
{
}

/// A display that is publishing is never pending, whatever its lock says, so a recovery
/// that looks again before it acts does not make one depart.
pub proof fn law_publishing_is_never_pending(live: RingLive, lock_available: bool)
    ensures
        live.is_publishing() ==> tick_of(live, lock_available) is Settled,
{
}

/// A monitor is drawn into a recovery only if it renders on the adapter that was lost and
/// its ring is not back, and every such monitor is.
pub proof fn law_recovery_spares_healthy_adapters(looks: Seq<RingLook>, luid: u64, s: u64)
    ensures
        pending_sessions(looks, luid).contains(s) <==> exists|i: int|
            0 <= i < looks.len() && (#[trigger] looks[i]).session_id == s && looks[i].adapter_luid
                == luid && !(looks[i].tick is Settled),
    decreases looks.len(),
{
    if looks.len() > 0 {
        let rest = looks.drop_last();
        law_recovery_spares_healthy_adapters(rest, luid, s);
        let before = pending_sessions(rest, luid);
        let now = pending_sessions(looks, luid);
        assert forall|i: int| 0 <= i < rest.len() implies #[trigger] looks[i] == rest[i] by {}
        if now.contains(s) {
            if before.contains(s) {
                let i = choose|i: int|
                    0 <= i < rest.len() && (#[trigger] rest[i]).session_id == s
                        && rest[i].adapter_luid == luid && !(rest[i].tick is Settled);
                assert(looks[i] == rest[i]);
            } else {
                let k = choose|k: int| 0 <= k < now.len() && now[k] == s;
                assert(k == before.len());
                assert(looks[looks.len() - 1] == looks.last());
            }
        }
        if exists|i: int|
            0 <= i < looks.len() && (#[trigger] looks[i]).session_id == s && looks[i].adapter_luid
                == luid && !(looks[i].tick is Settled) {
            let i = choose|i: int|
                0 <= i < looks.len() && (#[trigger] looks[i]).session_id == s
                    && looks[i].adapter_luid == luid && !(looks[i].tick is Settled);
            if i < rest.len() {
                assert(rest[i].session_id == s);
                let k = choose|k: int| 0 <= k < before.len() && before[k] == s;
                assert(now[k] == s);
            } else {
                assert(now.last() == s);
                assert(now[now.len() - 1] == s);
            }
        }
    }
}

/// Whether a ring has recovered does not depend on its lock.
pub proof fn law_recovery_ignores_the_lock(live: RingLive)
    ensures
        (tick_of(live, true) is Settled) == (tick_of(live, false) is Settled),
{
}

/// A worker that goes live settles its ring, whatever the state was.
pub proof fn law_live_worker_settles(live: RingLive)
    ensures
        live.gone_live().is_settled(),
        live.gone_live().is_publishing(),
{
}

/// A worker that fails marks the ring before it leaves, so at no moment in between
/// does the ring look recovered or alive.
pub proof fn law_failed_worker_never_looks_recovered(live: RingLive)
    requires
        live.transport,
    ensures
        !live.with_state(ring_state::REBUILDING).is_settled(),
        !live.with_state(ring_state::REBUILDING).is_publishing(),
        !live.with_state(ring_state::REBUILDING).worker_gone().is_settled(),
        !live.with_state(ring_state::REBUILDING).worker_gone().is_publishing(),
{
}

/// A worker that merely leaves does not make a settled ring pending.
pub proof fn law_routine_exit_stays_settled(live: RingLive)
    ensures
        live.worker_gone().is_settled() == live.is_settled(),
        !live.worker_gone().is_publishing(),
        live.worker_gone().live_generation == live.live_generation,
{
}

/// A ring without transport, or one whose session is over, is never waited for.
pub proof fn law_dead_or_absent_ring_is_settled(live: RingLive, state: u32)
    ensures
        !live.transport ==> live.with_state(state).is_settled(),
        live.with_state(ring_state::DEAD).is_settled(),
{
}

/// How a recovery goes on, in numbers. Ten seconds on a healthy adapter or ten minutes in
/// any case make the displays that are still pending depart; before that, and with
/// nothing pending, none does. Any other response than giving up the device takes every
/// display off.
pub proof fn law_recovery_cases(mode: u32, waited_ms: u64, adapter_back: bool, pending: nat)
    ensures
        ({
            let step = recovery_of(mode, waited_ms, adapter_back, pending);
            let due = waited_ms >= 600_000 || (adapter_back && waited_ms >= 10_000);
            &&& mode != 0 ==> step is DepartAll
            &&& mode == 0 && pending == 0 ==> step is Done
            &&& mode == 0 && pending > 0 && due ==> step is DepartPending
            &&& mode == 0 && pending > 0 && !due ==> step is Wait
        }),
{
}

/// When departed displays return, in numbers: at once when the adapter is back, never
/// after a teardown, and not any more after ten minutes.
pub proof fn law_return_cases(expected: u64, epoch: u64, adapter_back: bool, waited_ms: u64)
    ensures
        ({
            let step = return_of(expected, epoch, adapter_back, waited_ms);
            &&& step is Stale <==> epoch != expected
            &&& step is Replug <==> epoch == expected && adapter_back
            &&& step is Wait <==> epoch == expected && !adapter_back && waited_ms < 600_000
            &&& step is GiveUp <==> epoch == expected && !adapter_back && waited_ms >= 600_000
        }),
{
}

/// What a tick finds, by what was published: a ring is pending exactly while there is a
/// transport whose state is 2, whether or not a worker is live; the lock only tells the
/// two kinds of pending apart.
pub proof fn law_tick_cases(live: RingLive, lock_available: bool)
    ensures
        ({
            let tick = tick_of(live, lock_available);
            let pending = live.transport && live.state == 2;
            &&& tick is Settled <==> !pending
            &&& tick is Rebuilding <==> pending && lock_available
            &&& tick is HeartbeatBlocked <==> pending && !lock_available
            &&& live.is_publishing() <==> live.worker_live && live.state == 1
        }),
{
}

/// What each report changes beside a ring, and that it changes nothing else.
pub proof fn law_live_reports(live: RingLive, state: u32)
    requires
        live.live_generation < u64::MAX,
    ensures
        ({
            let on = live.gone_live();
            let marked = live.with_state(state);
            let off = live.worker_gone();
            &&& on.transport == live.transport && on.state == 1 && on.worker_live
            &&& on.live_generation == live.live_generation + 1
            &&& marked.transport == live.transport && marked.state == state && marked.worker_live
                == live.worker_live && marked.live_generation == live.live_generation
            &&& off.transport == live.transport && off.state == live.state && !off.worker_live
            &&& off.live_generation == live.live_generation
        }),
{
}

/// The pending sessions are listed in the order the rings were looked at, each as often
/// as its ring was.
pub proof fn law_pending_in_order(looks: Seq<RingLook>, luid: u64, next: RingLook)
    ensures
        pending_sessions(looks.push(next), luid) == (if next.adapter_luid == luid && !(
        next.tick is Settled) {
            pending_sessions(looks, luid).push(next.session_id)
        } else {
            pending_sessions(looks, luid)
        }),
        pending_sessions(Seq::empty(), luid).len() == 0,
{
    assert(looks.push(next).drop_last() =~= looks);
}

/// The waits of a recovery in milliseconds.
pub proof fn law_recovery_waits()
    ensures
        RECOVERY_POLL_MS == 250 && REQUALIFY_AFTER_MS == 10_000 && RECOVERY_DEADLINE_MS == 600_000,
{
}

} // verus!
