//! The frame worker: what it does with each frame the operating system composes.
//!
//! The worker asks for one thing at a time and is told how it went. What it stores
//! into the shared section, and what it reports of itself, comes as a list of writes
//! to be carried out in order before the next thing is done.
use vstd::prelude::*;

use crate::dispatch::TDR_DUCK_DEVICE;
use crate::proto::ring_state;
use crate::proto::slot_state;
use crate::proto::{
    ABI_MAX_RING_SLOTS, KMTX_KEY_DRIVER, KMTX_KEY_HOST, RING_HEARTBEAT_INTERVAL_MS,
};
use crate::proto::wire::{law_u32_reads_back, law_u64_reads_back, u32_at, u32_le, u64_at, u64_le};
use crate::ring::{lemma_writer_slot, RingModel, RingPolicy, Slot};
use crate::shell::sections::{
    heartbeat, plain, publication_stores, releasing, reset_slot_free, reset_slots, set_generation,
    set_state, slot_published, slot_start, stores_of, Publication, Store, StoreModel,
    GENERATION_AT, HEARTBEAT_AT, STATE_AT,
};
use crate::tdr::RingLive;

verus! {

/// The heartbeat is refreshed at least this often.
pub const HEARTBEAT_EVERY_MS: u64 = 250;

/// How long one wait for a frame lasts.
pub const FRAME_WAIT_MS: u32 = 100;

/// How long a worker gets to stop.
pub const STOP_DEADLINE_MS: u64 = 500;

/// No frame yet.
pub const STATUS_PENDING: i32 = 259;

pub const E_PENDING: i32 = -2147483638;

/// The keyed mutex was not to be had in time.
pub const WAIT_TIMEOUT_HR: i32 = 258;

/// How the wait for a keyed mutex ended.
#[derive(Clone, Copy, Debug, PartialEq, Eq, Structural)]
pub enum AcquireOutcome {
    Acquired,
    TimedOut,
    /// Abandoned, or the device is gone.
    DeviceLost(i32),
}

/// Read the result of a wait for a keyed mutex. A timeout is a success code other
/// than zero, so it takes the code to tell the two apart.
pub fn acquire_outcome(hr: i32) -> (r: AcquireOutcome)
    ensures
        r is Acquired <==> hr == 0,
        r is TimedOut <==> hr == WAIT_TIMEOUT_HR,
        r matches AcquireOutcome::DeviceLost(code) ==> code == hr,
{
    if hr == 0 {
        AcquireOutcome::Acquired
    } else if hr == WAIT_TIMEOUT_HR {
        AcquireOutcome::TimedOut
    } else {
        AcquireOutcome::DeviceLost(hr)
    }
}

/// One thing to write down.
#[derive(Clone, Copy, Debug, PartialEq, Eq, Structural)]
pub enum Write {
    /// In the section: every slot is free.
    FreeAll,
    /// In the section: this slot is free.
    FreeSlot(usize),
    /// In the section: the generation of the textures.
    Generation(u32),
    /// In the section: the state of the ring.
    State(u32),
    /// In the section: the driver is alive.
    Beat,
    /// In the section: a frame.
    Published(Publication),
    /// Beside the ring: a worker is live.
    WorkerLive,
    /// Beside the ring: the state of the ring.
    LiveState(u32),
    /// Beside the ring: no worker is live.
    WorkerExit,
}

/// What the worker waits for.
#[derive(Clone, Copy, Debug, PartialEq, Eq, Structural)]
pub enum Act {
    /// Give back the last buffer and ask for the next.
    Acquire,
    /// Wait for a frame to be announced.
    Wait,
    /// Say that a frame without a surface is done with.
    Skip,
    /// Look at the surface.
    Describe,
    /// Create a texture per slot.
    Create { generation: u32, slots: u32, width: u32, height: u32, format: u32 },
    /// Read the state of every slot in the section.
    ReadSlots,
    /// Mark the slot as being written if it is still in the state expected.
    TakeSlot { index: usize, expected: u32 },
    /// Take the slot's mutex.
    Lock { index: usize, key: u64 },
    /// Let go of the slot's mutex without having written.
    Unlock { index: usize, key: u64 },
    /// Copy the surface, then let the host have the mutex.
    Copy { index: usize },
    /// Say that the frame is done with.
    Finish { failed: bool },
    /// Ask whether the device was removed.
    AskRemoved,
    /// Return; with a code, ask for a recovery.
    Exit { duck: Option<i32> },
}

/// The ring of one monitor, which outlives the workers that fill it.
pub struct FrameRing {
    pub policy: RingPolicy,
    /// There is a shared section.
    pub section: bool,
    /// There is a texture per slot, of this size and format.
    pub textures: bool,
    pub tex_width: u32,
    pub tex_height: u32,
    pub tex_format: u32,
    /// The host has had this slot's mutex since the textures were made.
    pub ever_published: Vec<bool>,
    pub assigned_before: bool,
}

pub struct FrameModel {
    pub policy: RingModel,
    pub section: bool,
    pub textures: bool,
    pub tex_width: u32,
    pub tex_height: u32,
    pub tex_format: u32,
    pub ever_published: Seq<bool>,
    pub assigned_before: bool,
}

impl View for FrameRing {
    type V = FrameModel;

    open spec fn view(&self) -> FrameModel {
        FrameModel {
            policy: self.policy@,
            section: self.section,
            textures: self.textures,
            tex_width: self.tex_width,
            tex_height: self.tex_height,
            tex_format: self.tex_format,
            ever_published: self.ever_published@,
            assigned_before: self.assigned_before,
        }
    }
}

impl FrameModel {
    pub open spec fn wf(self) -> bool {
        self.policy.wf() && self.ever_published.len() == self.policy.slots.len()
    }

    /// The counters are far from their ends.
    pub open spec fn has_room(self) -> bool {
        &&& self.policy.frames_dropped < u64::MAX - 1
        &&& self.policy.frames_published < u64::MAX
        &&& self.policy.next_sequence < u64::MAX
        &&& self.policy.generation < u32::MAX - 1
    }

    /// No slot is being written.
    pub open spec fn idle(self) -> bool {
        forall|i: int|
            0 <= i < self.policy.slots.len() ==> #[trigger] self.policy.slots[i] != Slot::Writing
    }

    /// Slot `index` is being written, and no other.
    pub open spec fn writing(self, index: int) -> bool {
        &&& 0 <= index < self.policy.slots.len()
        &&& self.policy.slots[index] == Slot::Writing
        &&& forall|i: int|
            0 <= i < self.policy.slots.len() && i != index ==> #[trigger] self.policy.slots[i]
                != Slot::Writing
    }

    /// What goes into the section, if there is one.
    pub open spec fn shared(self, writes: Seq<Write>) -> Seq<Write> {
        if self.section {
            writes
        } else {
            Seq::empty()
        }
    }

    /// The ring without its textures: nothing in it, in the next generation.
    pub open spec fn retired(self) -> FrameModel {
        FrameModel {
            policy: self.policy.rebuilt(),
            textures: false,
            tex_width: 0,
            tex_height: 0,
            tex_format: 0,
            ever_published: Seq::new(self.ever_published.len(), |i: int| false),
            ..self
        }
    }

    pub open spec fn retire_writes(self) -> Seq<Write> {
        self.shared(seq![Write::FreeAll, Write::Generation((self.policy.generation + 1) as u32)])
    }

    /// The textures are of this size and format.
    pub open spec fn matching(self, width: u32, height: u32, format: u32) -> bool {
        self.textures && width == self.tex_width && height == self.tex_height && format
            == self.tex_format
    }

    /// The ring after the marks of the host were taken over.
    pub open spec fn reconciled(self, states: Seq<u32>) -> FrameModel {
        FrameModel {
            policy: RingModel {
                slots: Seq::new(
                    self.policy.slots.len(),
                    |i: int| RingModel::reconciled(self.policy.slots[i], states[i]),
                ),
                ..self.policy
            },
            ..self
        }
    }

    /// The key under which the driver takes the mutex of a slot.
    pub open spec fn key_of(self, index: int) -> u64 {
        if self.ever_published[index] {
            KMTX_KEY_HOST
        } else {
            KMTX_KEY_DRIVER
        }
    }

    pub open spec fn aborted(self, index: int) -> FrameModel {
        FrameModel { policy: self.policy.aborted(index), ..self }
    }

    pub open spec fn published(self, index: int) -> FrameModel {
        FrameModel {
            policy: self.policy.published(index),
            ever_published: self.ever_published.update(index, true),
            ..self
        }
    }
}

/// A turn of the worker: what it waits for next, the ring after it, what to write.
pub struct Turn {
    pub worker: FrameWorker,
    pub ring: FrameModel,
    pub writes: Seq<Write>,
}

impl Turn {
    /// The worker is told to stop.
    pub open spec fn exited(self) -> Turn {
        Turn {
            worker: FrameWorker { waiting: Act::Exit { duck: None }, ..self.worker },
            writes: self.writes.push(Write::WorkerExit),
            ..self
        }
    }

    /// The top of the loop.
    pub open spec fn again(self, stop: bool, now_ms: u64) -> Turn {
        if stop {
            self.exited()
        } else if now_ms >= self.worker.beat_ms && now_ms - self.worker.beat_ms
            >= HEARTBEAT_EVERY_MS {
            Turn {
                worker: FrameWorker { waiting: Act::Acquire, beat_ms: now_ms },
                writes: self.writes + self.ring.shared(seq![Write::Beat]),
                ..self
            }
        } else {
            Turn { worker: FrameWorker { waiting: Act::Acquire, ..self.worker }, ..self }
        }
    }

    /// A frame has been dealt with, for better or worse.
    pub open spec fn dealt_with(self, failed: bool, stop: bool) -> Turn {
        if stop {
            self.exited()
        } else {
            Turn { worker: FrameWorker { waiting: Act::Finish { failed }, ..self.worker }, ..self }
        }
    }

    /// The worker cannot go on: it marks the ring, retires the textures and leaves.
    pub open spec fn broken(self) -> Turn {
        Turn {
            worker: FrameWorker { waiting: Act::AskRemoved, ..self.worker },
            ring: self.ring.retired(),
            writes: self.writes + self.ring.shared(seq![Write::State(ring_state::REBUILDING)])
                + self.ring.retire_writes() + seq![
                Write::LiveState(ring_state::REBUILDING),
                Write::WorkerExit,
            ],
        }
    }

    /// The frame in slot `index` is given up and the slot handed back.
    pub open spec fn given_up(self, index: int) -> Turn {
        Turn {
            ring: self.ring.aborted(index),
            writes: self.writes + self.ring.shared(seq![Write::FreeSlot(index as usize)]),
            ..self
        }
    }

    pub open spec fn waits_for(self, act: Act) -> Turn {
        Turn { worker: FrameWorker { waiting: act, ..self.worker }, ..self }
    }

    /// A buffer was asked for.
    pub open spec fn on_acquired(self, status: i32, surface: bool, stop: bool) -> Turn {
        if stop {
            self.exited()
        } else if status == STATUS_PENDING || status == E_PENDING {
            self.waits_for(Act::Wait)
        } else if status != 0 {
            self.broken()
        } else if !surface {
            self.waits_for(Act::Skip)
        } else if self.ring.section {
            self.waits_for(Act::Describe)
        } else {
            self.dealt_with(false, stop)
        }
    }

    /// The surface was looked at.
    pub open spec fn on_described(self, desc: Option<(u32, u32, u32)>, stop: bool) -> Turn {
        match desc {
            None => self.dealt_with(true, stop),
            Some((width, height, format)) => if self.ring.matching(width, height, format) {
                self.waits_for(Act::ReadSlots)
            } else {
                let ring = if self.ring.textures {
                    self.ring.retired()
                } else {
                    self.ring
                };
                Turn {
                    ring,
                    writes: self.writes + (if self.ring.textures {
                        self.ring.retire_writes()
                    } else {
                        Seq::empty()
                    }),
                    ..self
                }.waits_for(
                    Act::Create {
                        generation: ring.policy.generation,
                        slots: ring.policy.slots.len() as u32,
                        width,
                        height,
                        format,
                    },
                )
            },
        }
    }

    /// Textures were to be created.
    pub open spec fn on_created(self, ok: bool, stop: bool) -> Turn {
        match self.worker.waiting {
            Act::Create { generation, slots, width, height, format } => if ok {
                Turn {
                    ring: FrameModel {
                        textures: true,
                        tex_width: width,
                        tex_height: height,
                        tex_format: format,
                        ..self.ring
                    },
                    ..self
                }.waits_for(Act::ReadSlots)
            } else {
                self.dealt_with(true, stop)
            },
            _ => self,
        }
    }

    /// The states of the slots were read.
    pub open spec fn on_slots(self, states: Seq<u32>, stop: bool) -> Turn {
        let seen = self.ring.reconciled(states);
        let ring = FrameModel { policy: seen.policy.after_writer_acquire(), ..seen };
        match seen.policy.writer_slot() {
            None => Turn {
                ring,
                writes: self.writes + ring.shared(seq![Write::Beat]),
                ..self
            }.dealt_with(false, stop),
            Some(w) => Turn { ring, ..self }.waits_for(
                Act::TakeSlot {
                    index: w.index,
                    expected: if w.overwrote is Some {
                        slot_state::PUBLISHED
                    } else {
                        slot_state::FREE
                    },
                },
            ),
        }
    }

    /// The slot was to be marked as being written; the host may have been faster.
    pub open spec fn on_taken(self, index: int, ok: bool, stop: bool) -> Turn {
        if ok {
            self.waits_for(Act::Lock { index: index as usize, key: self.ring.key_of(index) })
        } else {
            Turn {
                ring: self.ring.aborted(index),
                writes: self.writes + self.ring.shared(seq![Write::Beat]),
                ..self
            }.dealt_with(false, stop)
        }
    }

    /// The slot's mutex was asked for.
    pub open spec fn on_locked(self, index: int, key: u64, hr: i32, stop: bool) -> Turn {
        if hr == 0 {
            if stop {
                self.waits_for(Act::Unlock { index: index as usize, key })
            } else {
                self.waits_for(Act::Copy { index: index as usize })
            }
        } else {
            self.given_up(index).dealt_with(hr != WAIT_TIMEOUT_HR, stop)
        }
    }

    /// The slot's mutex was let go again.
    pub open spec fn on_unlocked(self, index: int, stop: bool) -> Turn {
        self.given_up(index).dealt_with(false, stop)
    }

    /// The surface was copied and the host was to get the mutex.
    pub open spec fn on_copied(
        self,
        index: int,
        ok: bool,
        present_qpc: u64,
        now_qpc: u64,
        stop: bool,
    ) -> Turn {
        if ok {
            let ring = self.ring.published(index);
            Turn {
                ring,
                writes: self.writes + ring.shared(
                    seq![
                        Write::Published(
                            Publication {
                                index: index as usize,
                                sequence: self.ring.policy.next_sequence,
                                present_qpc: if present_qpc != 0 {
                                    present_qpc
                                } else {
                                    now_qpc
                                },
                                frames_published: ring.policy.frames_published,
                                frames_dropped: ring.policy.frames_dropped,
                            },
                        ),
                    ],
                ),
                ..self
            }.dealt_with(false, stop)
        } else {
            self.given_up(index).dealt_with(true, stop)
        }
    }

    /// The operating system knows that the frame is done with.
    pub open spec fn on_finished(self, failed: bool, stop: bool, now_ms: u64) -> Turn {
        let beaten = Turn {
            worker: FrameWorker { beat_ms: now_ms, ..self.worker },
            writes: self.writes + self.ring.shared(seq![Write::Beat]),
            ..self
        };
        if failed {
            beaten.broken()
        } else {
            beaten.again(stop, now_ms)
        }
    }

    /// The worker and the ring agree on which slot is being written.
    pub open spec fn ok(self) -> bool {
        &&& self.ring.wf()
        &&& match self.worker.waiting {
            Act::TakeSlot { index, expected } => self.ring.section && self.ring.textures
                && self.ring.writing(index as int),
            Act::Lock { index, key } => self.ring.section && self.ring.textures
                && self.ring.writing(index as int) && key == self.ring.key_of(index as int),
            Act::Unlock { index, key } => self.ring.section && self.ring.textures
                && self.ring.writing(index as int) && key == self.ring.key_of(index as int),
            Act::Copy { index } => self.ring.section && self.ring.textures && self.ring.writing(
                index as int,
            ),
            Act::Describe => self.ring.section && self.ring.idle(),
            Act::Create { generation, slots, width, height, format } => self.ring.section
                && !self.ring.textures && self.ring.idle() && generation
                == self.ring.policy.generation && slots == self.ring.policy.slots.len(),
            Act::ReadSlots => self.ring.section && self.ring.textures && self.ring.idle(),
            _ => self.ring.idle(),
        }
    }
}

/// How a worker starts.
#[derive(Clone, Copy, Debug, PartialEq, Eq, Structural)]
pub enum Start {
    /// Return.
    Quit,
    /// Mark the ring as being rebuilt, ask for a recovery, and return.
    Recover,
    /// Hand the device to the swap chain.
    Go,
}

/// The device for the frames was asked for. When it cannot be had, that is a reason to
/// recover only where the configuration says so, and not if the worker is to stop.
pub fn device_made(ok: bool, stop: bool, tdr_duck_mode: u32) -> (r: Start)
    ensures
        r is Go <==> ok && !stop,
        r is Recover <==> !ok && !stop && tdr_duck_mode == TDR_DUCK_DEVICE,
{
    if !ok {
        if !stop && tdr_duck_mode == TDR_DUCK_DEVICE {
            return Start::Recover;
        }
        return Start::Quit;
    }
    if stop {
        Start::Quit
    } else {
        Start::Go
    }
}

impl FrameRing {
    pub open spec fn wf(&self) -> bool {
        self@.wf()
    }

    /// A ring without textures.
    pub fn new(ring_slots: u32, section: bool) -> (r: Self)
        ensures
            r.wf(),
            r@.idle(),
            r@.policy.slots.len() == (if ring_slots < 2 {
                2
            } else if ring_slots > ABI_MAX_RING_SLOTS {
                ABI_MAX_RING_SLOTS as int
            } else {
                ring_slots as int
            }),
            r@.policy.next_sequence == 1,
            r@.policy.generation == 1,
            r@.policy.frames_published == 0,
            r@.policy.frames_dropped == 0,
            r@.section == section,
            !r@.textures,
            forall|i: int|
                0 <= i < r@.ever_published.len() ==> !(#[trigger] r@.ever_published[i]),
            !r@.assigned_before,
    {
        let policy = RingPolicy::new(ring_slots);
        let n: usize = policy.slot_count();
        FrameRing {
            policy,
            section,
            textures: false,
            tex_width: 0,
            tex_height: 0,
            tex_format: 0,
            ever_published: all_false(n),
            assigned_before: false,
        }
    }

    /// Whether another frame can be counted.
    pub fn has_room(&self) -> (r: bool)
        ensures
            r == self@.has_room(),
    {
        self.policy.frames_dropped < u64::MAX - 1 && self.policy.frames_published < u64::MAX
            && self.policy.next_sequence < u64::MAX && self.policy.generation < u32::MAX - 1
    }

    fn share(&self, writes: &mut Vec<Write>, w: Write)
        ensures
            final(writes)@ == old(writes)@ + self@.shared(seq![w]),
    {
        if self.section {
            writes.push(w);
            assert(writes@ =~= old(writes)@ + seq![w]);
        } else {
            assert(writes@ =~= old(writes)@ + Seq::<Write>::empty());
        }
    }

    /// Drop the textures and everything in them.
    fn retire_textures(&mut self, writes: &mut Vec<Write>)
        requires
            old(self).wf(),
            old(self)@.policy.generation < u32::MAX,
        ensures
            final(self).wf(),
            final(self)@ == old(self)@.retired(),
            final(self)@.idle(),
            final(writes)@ == old(writes)@ + old(self)@.retire_writes(),
    {
        let n: usize = self.ever_published.len();
        self.textures = false;
        self.tex_width = 0;
        self.tex_height = 0;
        self.tex_format = 0;
        self.ever_published = all_false(n);
        let generation: u32 = self.policy.rebuild();
        let ghost mid = *writes;
        self.share(writes, Write::FreeAll);
        self.share(writes, Write::Generation(generation));
        proof {
            assert(writes@ =~= old(writes)@ + old(self)@.retire_writes());
            assert(self@.ever_published =~= old(self)@.retired().ever_published);
            assert(self@ == old(self)@.retired());
        }
    }

    fn abort(&mut self, index: usize)
        requires
            old(self).wf(),
            old(self)@.writing(index as int),
            old(self)@.policy.frames_dropped < u64::MAX,
        ensures
            final(self).wf(),
            final(self)@ == old(self)@.aborted(index as int),
            final(self)@.idle(),
    {
        self.policy.writer_abort(index);
    }
}

fn all_false(n: usize) -> (r: Vec<bool>)
    ensures
        r@ == Seq::new(n as nat, |i: int| false),
{
    let mut out: Vec<bool> = Vec::new();
    while out.len() < n
        invariant
            out@.len() <= n,
            forall|i: int| 0 <= i < out@.len() ==> #[trigger] out@[i] == false,
        decreases n - out@.len(),
    {
        out.push(false);
    }
    assert(out@ =~= Seq::new(n as nat, |i: int| false));
    out
}

/// A worker between two steps.
#[derive(Clone, Copy, Debug, PartialEq, Eq, Structural)]
pub struct FrameWorker {
    pub waiting: Act,
    /// When the heartbeat was last refreshed by the loop.
    pub beat_ms: u64,
}

impl FrameWorker {
    /// The turn so far: nothing written yet.
    pub open spec fn turn(self, ring: FrameModel) -> Turn {
        Turn { worker: self, ring, writes: Seq::empty() }
    }

    /// What a worker that has its device does to the ring before its first frame.
    pub open spec fn begun(ring: FrameModel, now_ms: u64) -> Turn {
        let fresh = if ring.assigned_before {
            ring.retired()
        } else {
            ring
        };
        Turn {
            worker: FrameWorker { waiting: Act::Acquire, beat_ms: now_ms },
            ring: FrameModel { assigned_before: true, ..fresh },
            writes: (if ring.assigned_before {
                ring.retire_writes()
            } else {
                Seq::empty()
            }) + ring.shared(seq![Write::State(ring_state::ACTIVE)]) + seq![Write::WorkerLive],
        }
    }

    /// The worker has its device and the ring. What an earlier worker left in the ring
    /// is retired. `None` when the worker is to stop already.
    pub fn begin(ring: &mut FrameRing, stop: bool, now_ms: u64) -> (r: Option<(
        FrameWorker,
        Vec<Write>,
    )>)
        requires
            old(ring).wf(),
            old(ring)@.assigned_before || old(ring)@.idle(),
            old(ring)@.has_room(),
        ensures
            r is None <==> stop,
            r is None ==> final(ring)@ == old(ring)@,
            r matches Some((worker, writes)) ==> {
                let t = FrameWorker::begun(old(ring)@, now_ms);
                worker == t.worker && writes@ == t.writes && final(ring)@ == t.ring && t.ok()
            },
    {
        if stop {
            return None;
        }
        let mut writes: Vec<Write> = Vec::new();
        if ring.assigned_before {
            ring.retire_textures(&mut writes);
        }
        ring.assigned_before = true;
        ring.share(&mut writes, Write::State(ring_state::ACTIVE));
        writes.push(Write::WorkerLive);
        proof {
            assert(writes@ =~= FrameWorker::begun(old(ring)@, now_ms).writes);
        }
        Some((FrameWorker { waiting: Act::Acquire, beat_ms: now_ms }, writes))
    }

    fn exit(&mut self, writes: &mut Vec<Write>)
        ensures
            final(self).waiting == (Act::Exit { duck: None }),
            final(self).beat_ms == old(self).beat_ms,
            final(writes)@ == old(writes)@.push(Write::WorkerExit),
    {
        self.waiting = Act::Exit { duck: None };
        writes.push(Write::WorkerExit);
    }

    fn again(&mut self, ring: &FrameRing, writes: &mut Vec<Write>, stop: bool, now_ms: u64)
        ensures
            ({
                let t = Turn { worker: *old(self), ring: ring@, writes: old(writes)@ }.again(
                    stop,
                    now_ms,
                );
                *final(self) == t.worker && final(writes)@ == t.writes
            }),
    {
        if stop {
            self.exit(writes);
            return;
        }
        if now_ms >= self.beat_ms && now_ms - self.beat_ms >= HEARTBEAT_EVERY_MS {
            ring.share(writes, Write::Beat);
            self.beat_ms = now_ms;
        }
        self.waiting = Act::Acquire;
    }

    fn dealt_with(&mut self, writes: &mut Vec<Write>, failed: bool, stop: bool)
        ensures
            forall|ring: FrameModel|
                ({
                    let t = (#[trigger] (Turn {
                        worker: *old(self),
                        ring,
                        writes: old(writes)@,
                    }.dealt_with(failed, stop)));
                    t.worker == *final(self) && t.writes == final(writes)@ && t.ring == ring
                }),
    {
        if stop {
            self.exit(writes);
        } else {
            self.waiting = Act::Finish { failed };
        }
    }

    fn broken(&mut self, ring: &mut FrameRing, writes: &mut Vec<Write>)
        requires
            old(ring).wf(),
            old(ring)@.policy.generation < u32::MAX,
        ensures
            ({
                let t = Turn { worker: *old(self), ring: old(ring)@, writes: old(writes)@ }.broken();
                *final(self) == t.worker && final(ring)@ == t.ring && final(writes)@ == t.writes
                    && t.ok()
            }),
    {
        ring.share(writes, Write::State(ring_state::REBUILDING));
        ring.retire_textures(writes);
        writes.push(Write::LiveState(ring_state::REBUILDING));
        writes.push(Write::WorkerExit);
        self.waiting = Act::AskRemoved;
        proof {
            assert(writes@ =~= Turn {
                worker: *old(self),
                ring: old(ring)@,
                writes: old(writes)@,
            }.broken().writes);
        }
    }

    fn given_up(&mut self, ring: &mut FrameRing, writes: &mut Vec<Write>, index: usize)
        requires
            old(ring).wf(),
            old(ring)@.writing(index as int),
            old(ring)@.policy.frames_dropped < u64::MAX,
        ensures
            *final(self) == *old(self),
            ({
                let t = Turn { worker: *old(self), ring: old(ring)@, writes: old(writes)@ }.given_up(
                    index as int,
                );
                final(ring)@ == t.ring && final(writes)@ == t.writes && t.ring.wf() && t.ring.idle()
            }),
    {
        ring.abort(index);
        ring.share(writes, Write::FreeSlot(index));
    }

    /// A buffer was asked for.
    pub fn acquired(&mut self, ring: &mut FrameRing, status: i32, surface: bool, stop: bool) -> (r:
        Vec<Write>)
        requires
            old(self).turn(old(ring)@).ok(),
            old(ring)@.has_room(),
            old(self).waiting is Acquire,
        ensures
            ({
                let t = old(self).turn(old(ring)@).on_acquired(status, surface, stop);
                *final(self) == t.worker && final(ring)@ == t.ring && r@ == t.writes && t.ok()
            }),
    {
        let mut writes: Vec<Write> = Vec::new();
        if stop {
            self.exit(&mut writes);
        } else if status == STATUS_PENDING || status == E_PENDING {
            self.waiting = Act::Wait;
        } else if status != 0 {
            self.broken(ring, &mut writes);
        } else if !surface {
            self.waiting = Act::Skip;
        } else if ring.section {
            self.waiting = Act::Describe;
        } else {
            self.dealt_with(&mut writes, false, stop);
        }
        writes
    }

    /// The wait for a frame is over, or a frame without a surface is done with.
    pub fn resumed(&mut self, ring: &mut FrameRing, stop: bool, now_ms: u64) -> (r: Vec<Write>)
        requires
            old(self).turn(old(ring)@).ok(),
            old(self).waiting is Wait || old(self).waiting is Skip,
        ensures
            ({
                let t = old(self).turn(old(ring)@).again(stop, now_ms);
                *final(self) == t.worker && final(ring)@ == t.ring && r@ == t.writes && t.ok()
            }),
    {
        let mut writes: Vec<Write> = Vec::new();
        self.again(ring, &mut writes, stop, now_ms);
        writes
    }

    /// The surface was looked at; `None` when that failed.
    pub fn described(&mut self, ring: &mut FrameRing, desc: Option<(u32, u32, u32)>, stop: bool) -> (r:
        Vec<Write>)
        requires
            old(self).turn(old(ring)@).ok(),
            old(ring)@.has_room(),
            old(self).waiting is Describe,
        ensures
            ({
                let t = old(self).turn(old(ring)@).on_described(desc, stop);
                *final(self) == t.worker && final(ring)@ == t.ring && r@ == t.writes && t.ok()
            }),
    {
        let mut writes: Vec<Write> = Vec::new();
        match desc {
            None => {
                self.dealt_with(&mut writes, true, stop);
            },
            Some((width, height, format)) => {
                if ring.textures && width == ring.tex_width && height == ring.tex_height && format
                    == ring.tex_format {
                    self.waiting = Act::ReadSlots;
                } else {
                    if ring.textures {
                        ring.retire_textures(&mut writes);
                    }
                    proof {
                        let t = old(self).turn(old(ring)@).on_described(desc, stop);
                        assert(writes@ =~= t.writes);
                    }
                    self.waiting =
                    Act::Create {
                        generation: ring.policy.generation,
                        slots: ring.policy.slot_count() as u32,
                        width,
                        height,
                        format,
                    };
                }
            },
        }
        writes
    }

    /// Textures were to be created.
    pub fn created(&mut self, ring: &mut FrameRing, ok: bool, stop: bool) -> (r: Vec<Write>)
        requires
            old(self).turn(old(ring)@).ok(),
            old(self).waiting is Create,
        ensures
            ({
                let t = old(self).turn(old(ring)@).on_created(ok, stop);
                *final(self) == t.worker && final(ring)@ == t.ring && r@ == t.writes && t.ok()
            }),
    {
        let mut writes: Vec<Write> = Vec::new();
        if let Act::Create { generation: _, slots: _, width, height, format } = self.waiting {
            if ok {
                ring.textures = true;
                ring.tex_width = width;
                ring.tex_height = height;
                ring.tex_format = format;
                self.waiting = Act::ReadSlots;
            } else {
                self.dealt_with(&mut writes, true, stop);
            }
        }
        writes
    }

    /// The states of the slots were read.
    pub fn slots_read(&mut self, ring: &mut FrameRing, states: &[u32], stop: bool) -> (r: Vec<Write>)
        requires
            old(self).turn(old(ring)@).ok(),
            old(ring)@.has_room(),
            old(self).waiting is ReadSlots,
            states@.len() == old(ring)@.policy.slots.len(),
        ensures
            ({
                let t = old(self).turn(old(ring)@).on_slots(states@, stop);
                *final(self) == t.worker && final(ring)@ == t.ring && r@ == t.writes && t.ok()
            }),
    {
        let mut writes: Vec<Write> = Vec::new();
        let ghost was = ring@;
        let ghost seen = was.reconciled(states@);
        let mut i: usize = 0;
        while i < ring.policy.slot_count()
            invariant
                i <= ring@.policy.slots.len(),
                ring.wf(),
                was.wf(),
                was.policy.slots.len() == states@.len(),
                ring@.policy.slots.len() == was.policy.slots.len(),
                ring@ == (FrameModel {
                    policy: RingModel { slots: ring@.policy.slots, ..was.policy },
                    ..was
                }),
                forall|j: int|
                    0 <= j < ring@.policy.slots.len() ==> #[trigger] ring@.policy.slots[j] == (if j
                        < i {
                        RingModel::reconciled(was.policy.slots[j], states@[j])
                    } else {
                        was.policy.slots[j]
                    }),
            decreases ring@.policy.slots.len() - i,
        {
            ring.policy.reconcile_shared(i, states[i]);
            i += 1;
        }
        assert(ring@.policy.slots =~= seen.policy.slots);
        assert(ring@ == seen);
        assert(seen.idle());
        proof {
            lemma_writer_slot(seen.policy);
        }
        match ring.policy.writer_acquire() {
            None => {
                ring.share(&mut writes, Write::Beat);
                self.dealt_with(&mut writes, false, stop);
            },
            Some(w) => {
                let expected: u32 = if w.overwrote.is_some() {
                    slot_state::PUBLISHED
                } else {
                    slot_state::FREE
                };
                self.waiting = Act::TakeSlot { index: w.index, expected };
            },
        }
        writes
    }

    /// The slot was to be marked as being written.
    pub fn taken(&mut self, ring: &mut FrameRing, ok: bool, stop: bool) -> (r: Vec<Write>)
        requires
            old(self).turn(old(ring)@).ok(),
            old(ring)@.has_room(),
            old(self).waiting is TakeSlot,
        ensures
            ({
                let t = old(self).turn(old(ring)@).on_taken(
                    old(self).waiting->TakeSlot_index as int,
                    ok,
                    stop,
                );
                *final(self) == t.worker && final(ring)@ == t.ring && r@ == t.writes && t.ok()
            }),
    {
        let mut writes: Vec<Write> = Vec::new();
        if let Act::TakeSlot { index, expected: _ } = self.waiting {
            if ok {
                let key: u64 = if ring.ever_published[index] {
                    KMTX_KEY_HOST
                } else {
                    KMTX_KEY_DRIVER
                };
                self.waiting = Act::Lock { index, key };
            } else {
                ring.abort(index);
                ring.share(&mut writes, Write::Beat);
                self.dealt_with(&mut writes, false, stop);
            }
        }
        writes
    }

    /// The slot's mutex was asked for.
    pub fn locked(&mut self, ring: &mut FrameRing, hr: i32, stop: bool) -> (r: Vec<Write>)
        requires
            old(self).turn(old(ring)@).ok(),
            old(ring)@.has_room(),
            old(self).waiting is Lock,
        ensures
            ({
                let t = old(self).turn(old(ring)@).on_locked(
                    old(self).waiting->Lock_index as int,
                    old(self).waiting->Lock_key,
                    hr,
                    stop,
                );
                *final(self) == t.worker && final(ring)@ == t.ring && r@ == t.writes && t.ok()
            }),
    {
        let mut writes: Vec<Write> = Vec::new();
        if let Act::Lock { index, key } = self.waiting {
            match acquire_outcome(hr) {
                AcquireOutcome::Acquired => {
                    self.waiting =
                    if stop {
                        Act::Unlock { index, key }
                    } else {
                        Act::Copy { index }
                    };
                },
                AcquireOutcome::TimedOut => {
                    self.given_up(ring, &mut writes, index);
                    self.dealt_with(&mut writes, false, stop);
                },
                AcquireOutcome::DeviceLost(_) => {
                    self.given_up(ring, &mut writes, index);
                    self.dealt_with(&mut writes, true, stop);
                },
            }
        }
        writes
    }

    /// The slot's mutex was let go again.
    pub fn unlocked(&mut self, ring: &mut FrameRing, stop: bool) -> (r: Vec<Write>)
        requires
            old(self).turn(old(ring)@).ok(),
            old(ring)@.has_room(),
            old(self).waiting is Unlock,
        ensures
            ({
                let t = old(self).turn(old(ring)@).on_unlocked(
                    old(self).waiting->Unlock_index as int,
                    stop,
                );
                *final(self) == t.worker && final(ring)@ == t.ring && r@ == t.writes && t.ok()
            }),
    {
        let mut writes: Vec<Write> = Vec::new();
        if let Act::Unlock { index, key: _ } = self.waiting {
            self.given_up(ring, &mut writes, index);
            self.dealt_with(&mut writes, false, stop);
        }
        writes
    }

    /// The surface was copied, and the host was to get the mutex. The frame carries
    /// the time it is to be shown at, or, if that is unknown, the time now.
    pub fn copied(
        &mut self,
        ring: &mut FrameRing,
        ok: bool,
        present_qpc: u64,
        now_qpc: u64,
        stop: bool,
    ) -> (r: Vec<Write>)
        requires
            old(self).turn(old(ring)@).ok(),
            old(ring)@.has_room(),
            old(self).waiting is Copy,
        ensures
            ({
                let t = old(self).turn(old(ring)@).on_copied(
                    old(self).waiting->Copy_index as int,
                    ok,
                    present_qpc,
                    now_qpc,
                    stop,
                );
                *final(self) == t.worker && final(ring)@ == t.ring && r@ == t.writes && t.ok()
            }),
    {
        let mut writes: Vec<Write> = Vec::new();
        if let Act::Copy { index } = self.waiting {
            if ok {
                ring.ever_published.set(index, true);
                let sequence: u64 = ring.policy.publish(index);
                let present: u64 = if present_qpc != 0 {
                    present_qpc
                } else {
                    now_qpc
                };
                ring.share(
                    &mut writes,
                    Write::Published(
                        Publication {
                            index,
                            sequence,
                            present_qpc: present,
                            frames_published: ring.policy.frames_published,
                            frames_dropped: ring.policy.frames_dropped,
                        },
                    ),
                );
                self.dealt_with(&mut writes, false, stop);
            } else {
                self.given_up(ring, &mut writes, index);
                self.dealt_with(&mut writes, true, stop);
            }
        }
        writes
    }

    /// The operating system knows that the frame is done with.
    pub fn finished(&mut self, ring: &mut FrameRing, stop: bool, now_ms: u64) -> (r: Vec<Write>)
        requires
            old(self).turn(old(ring)@).ok(),
            old(ring)@.has_room(),
            old(self).waiting is Finish,
        ensures
            ({
                let t = old(self).turn(old(ring)@).on_finished(
                    old(self).waiting->Finish_failed,
                    stop,
                    now_ms,
                );
                *final(self) == t.worker && final(ring)@ == t.ring && r@ == t.writes && t.ok()
            }),
    {
        let mut writes: Vec<Write> = Vec::new();
        if let Act::Finish { failed } = self.waiting {
            ring.share(&mut writes, Write::Beat);
            self.beat_ms = now_ms;
            if failed {
                self.broken(ring, &mut writes);
            } else {
                self.again(ring, &mut writes, stop, now_ms);
            }
        }
        writes
    }

    /// The device said whether it was removed, and why.
    pub fn removal_known(&mut self, reason: Option<i32>)
        requires
            old(self).waiting is AskRemoved,
        ensures
            *final(self) == (FrameWorker { waiting: Act::Exit { duck: reason }, ..*old(self) }),
    {
        self.waiting = Act::Exit { duck: reason };
    }
}

impl Write {
    /// The write names no slot beyond the last.
    pub open spec fn fits(self, slot_count: int) -> bool {
        match self {
            Write::FreeSlot(index) => index < slot_count,
            Write::Published(p) => p.index < slot_count,
            _ => true,
        }
    }

    /// What the write stores into a section of `slot_count` slots.
    pub open spec fn section_part(self, slot_count: nat, now_qpc: u64) -> Seq<StoreModel> {
        match self {
            Write::FreeAll => Seq::new(
                slot_count,
                |i: int| releasing(slot_start(i), u32_le(slot_state::FREE)),
            ),
            Write::FreeSlot(index) => seq![
                releasing(slot_start(index as int), u32_le(slot_state::FREE)),
            ],
            Write::Generation(generation) => seq![plain(GENERATION_AT as int, u32_le(generation))],
            Write::State(state) => seq![releasing(STATE_AT as int, u32_le(state))],
            Write::Beat => seq![plain(HEARTBEAT_AT as int, u64_le(now_qpc))],
            Write::Published(p) => publication_stores(p, now_qpc),
            _ => Seq::empty(),
        }
    }

    /// What the write makes of the state beside the ring.
    pub open spec fn live_part(self, live: RingLive) -> RingLive {
        match self {
            Write::WorkerLive => live.gone_live(),
            Write::LiveState(state) => live.with_state(state),
            Write::WorkerExit => live.worker_gone(),
            _ => live,
        }
    }

    /// The stores of this write.
    pub fn stores(&self, slot_count: usize, now_qpc: u64) -> (r: Vec<Store>)
        requires
            slot_count <= ABI_MAX_RING_SLOTS,
            self.fits(slot_count as int),
        ensures
            stores_of(r@) == self.section_part(slot_count as nat, now_qpc),
    {
        match *self {
            Write::FreeAll => reset_slots(slot_count),
            Write::FreeSlot(index) => reset_slot_free(index),
            Write::Generation(generation) => set_generation(generation),
            Write::State(state) => set_state(state),
            Write::Beat => heartbeat(now_qpc),
            Write::Published(p) => slot_published(p, now_qpc),
            _ => {
                let none: Vec<Store> = Vec::new();
                assert(stores_of(none@) =~= Seq::empty());
                none
            },
        }
    }

    /// Report beside the ring what this write says of the worker.
    pub fn report(&self, live: &mut RingLive)
        requires
            old(live).live_generation < u64::MAX,
        ensures
            *final(live) == self.live_part(*old(live)),
    {
        match *self {
            Write::WorkerLive => {
                let _ = live.publish_worker_live();
            },
            Write::LiveState(state) => live.publish_state(state),
            Write::WorkerExit => live.publish_worker_exit(),
            _ => {},
        }
    }
}

/// The worker of a monitor, as the callbacks see it.
#[derive(Clone, Copy, Debug, PartialEq, Eq, Structural)]
pub struct WorkerSlot {
    /// The monitor object.
    pub monitor: u64,
    /// The adapter its swap chain renders on.
    pub adapter_luid: u64,
    /// The worker, by a number that no other has.
    pub worker: Option<u64>,
}

impl WorkerSlot {
    /// A swap chain was assigned: `worker` is to fill the ring from now on. Returns the
    /// worker that has to stop first.
    pub fn assign(&mut self, adapter_luid: u64, worker: u64) -> (r: Option<u64>)
        ensures
            r == old(self).worker,
            *final(self) == (WorkerSlot {
                adapter_luid,
                worker: Some(worker),
                ..*old(self)
            }),
    {
        let before = self.worker;
        self.adapter_luid = adapter_luid;
        self.worker = Some(worker);
        before
    }

    /// Whether `worker` is still wanted: neither the monitor nor its swap chain has
    /// been replaced while the thread was being started.
    pub fn keeps(&self, monitor: u64, worker: u64) -> (r: bool)
        ensures
            r == (self.monitor == monitor && self.worker == Some(worker)),
    {
        match self.worker {
            Some(w) => self.monitor == monitor && w == worker,
            None => false,
        }
    }

    /// The swap chain is gone. Returns the worker that has to stop.
    pub fn unassign(&mut self) -> (r: Option<u64>)
        ensures
            r == old(self).worker,
            *final(self) == (WorkerSlot { worker: None, ..*old(self) }),
    {
        let before = self.worker;
        self.worker = None;
        before
    }
}

/// What to do about a worker that was told to stop.
#[derive(Clone, Copy, Debug, PartialEq, Eq, Structural)]
pub enum StopWait {
    /// It has returned.
    Join,
    /// It takes too long: leave it behind.
    Detach,
    /// Look again soon.
    Sleep,
}

/// Wait for a worker to stop, but not for ever.
pub fn stop_wait(finished: bool, elapsed_ms: u64) -> (r: StopWait)
    ensures
        r is Join <==> finished,
        r is Detach <==> !finished && elapsed_ms >= STOP_DEADLINE_MS,
{
    if finished {
        StopWait::Join
    } else if elapsed_ms >= STOP_DEADLINE_MS {
        StopWait::Detach
    } else {
        StopWait::Sleep
    }
}

/// A slot the host has marked as its own is neither asked for nor changed.
pub proof fn law_held_slots_are_left_to_the_host(t: Turn, states: Seq<u32>, i: int, stop: bool)
    requires
        t.ok(),
        t.worker.waiting is ReadSlots,
        states.len() == t.ring.policy.slots.len(),
        0 <= i < states.len(),
        states[i] == slot_state::READING,
    ensures
        t.on_slots(states, stop).ring.policy.slots[i] == Slot::Reading,
        t.on_slots(states, stop).worker.waiting matches Act::TakeSlot { index, expected } ==> index
            != i,
{
    let seen = t.ring.reconciled(states);
    assert(t.ring.policy.slots[i] != Slot::Writing);
    assert(seen.policy.slots[i] == Slot::Reading);
    assert(seen.policy.wf()) by {
        lemma_reconciled_wf(t.ring, states);
    }
    lemma_writer_slot(seen.policy);
}

/// The marks of the host keep a ring well formed.
proof fn lemma_reconciled_wf(ring: FrameModel, states: Seq<u32>)
    requires
        ring.wf(),
        states.len() == ring.policy.slots.len(),
    ensures
        ring.reconciled(states).wf(),
{
    let seen = ring.reconciled(states);
    assert forall|i: int| 0 <= i < seen.policy.slots.len() implies (
    #[trigger] seen.policy.slots[i] matches Slot::Published(s) ==> s < seen.policy.next_sequence) by {
        if seen.policy.slots[i] is Published {
            assert(seen.policy.slots[i] == ring.policy.slots[i]);
        }
    }
    assert forall|i: int, j: int|
        0 <= i < j < seen.policy.slots.len() && seen.policy.slots[i] is Published
            && seen.policy.slots[j] is Published implies #[trigger] seen.policy.slots[i]
        != #[trigger] seen.policy.slots[j] by {
        assert(seen.policy.slots[i] == ring.policy.slots[i]);
        assert(seen.policy.slots[j] == ring.policy.slots[j]);
    }
}

/// A frame whose slot was picked is published or counted as dropped, and whichever it
/// is, no slot stays half written: the next frame finds every slot usable again.
pub proof fn law_every_frame_is_published_or_dropped(
    t: Turn,
    index: int,
    key: u64,
    hr: i32,
    present_qpc: u64,
    now_qpc: u64,
    stop: bool,
)
    requires
        t.ring.wf(),
        t.ring.writing(index),
        t.ring.has_room(),
    ensures
        ({
            let lost = t.on_taken(index, false, stop).ring;
            let unlocked = t.on_unlocked(index, stop).ring;
            let copied = t.on_copied(index, true, present_qpc, now_qpc, stop).ring;
            let failed = t.on_copied(index, false, present_qpc, now_qpc, stop).ring;
            let dropped = t.ring.policy.frames_dropped;
            let published = t.ring.policy.frames_published;
            &&& lost.idle() && lost.policy.frames_dropped == dropped + 1
            &&& unlocked.idle() && unlocked.policy.frames_dropped == dropped + 1
            &&& failed.idle() && failed.policy.frames_dropped == dropped + 1
            &&& copied.idle() && copied.policy.frames_published == published + 1
                && copied.policy.frames_dropped == dropped
            &&& hr != 0 ==> {
                let refused = t.on_locked(index, key, hr, stop).ring;
                refused.idle() && refused.policy.frames_dropped == dropped + 1
                    && refused.policy.frames_published == published
            }
        }),
{
}

/// A worker that breaks down says so in the section before the generation moves, and
/// beside the ring before it counts as gone. The textures it leaves behind belong to no
/// generation the host will open again.
pub proof fn law_broken_worker_marks_before_it_leaves(t: Turn)
    requires
        t.ring.wf(),
        t.ring.section,
        t.ring.policy.generation < u32::MAX,
    ensures
        ({
            let n = t.writes.len() as int;
            let w = t.broken().writes;
            &&& w.len() == n + 5
            &&& w[n] == Write::State(ring_state::REBUILDING)
            &&& w[n + 1] == Write::FreeAll
            &&& w[n + 2] == Write::Generation((t.ring.policy.generation + 1) as u32)
            &&& w[n + 3] == Write::LiveState(ring_state::REBUILDING)
            &&& w[n + 4] == Write::WorkerExit
            &&& t.broken().ring.policy.generation == t.ring.policy.generation + 1
            &&& !t.broken().ring.textures
            &&& t.broken().ring.idle()
        }),
{
}

/// The driver takes the mutex of a slot under its own key until the host has had it
/// once; fresh textures start over.
pub proof fn law_mutex_keys_alternate(ring: FrameModel, index: int)
    requires
        ring.wf(),
        0 <= index < ring.policy.slots.len(),
    ensures
        ring.published(index).key_of(index) == KMTX_KEY_HOST,
        ring.retired().key_of(index) == KMTX_KEY_DRIVER,
        ring.aborted(index).key_of(index) == ring.key_of(index),
{
}

/// A worker that is told to stop says that it is gone, whatever it was waiting for at
/// the points where it looks.
pub proof fn law_stopped_worker_reports(t: Turn, status: i32, surface: bool, failed: bool, now_ms: u64)
    ensures
        t.on_acquired(status, surface, true).worker.waiting == (Act::Exit { duck: None }),
        t.on_acquired(status, surface, true).writes.last() == Write::WorkerExit,
        t.again(true, now_ms).worker.waiting == (Act::Exit { duck: None }),
        t.again(true, now_ms).writes.last() == Write::WorkerExit,
        t.dealt_with(failed, true).worker.waiting == (Act::Exit { duck: None }),
        t.dealt_with(failed, true).writes.last() == Write::WorkerExit,
{
}

/// Whenever the worker asks for a frame, its heartbeat is younger than the interval it
/// keeps, and that interval and one wait together stay below what the host is promised.
pub proof fn law_heartbeat_stays_fresh(t: Turn, now_ms: u64)
    requires
        t.worker.beat_ms <= now_ms,
    ensures
        t.again(false, now_ms).worker.waiting == Act::Acquire,
        t.again(false, now_ms).worker.beat_ms <= now_ms,
        now_ms - t.again(false, now_ms).worker.beat_ms < HEARTBEAT_EVERY_MS,
        t.again(false, now_ms).worker.beat_ms != t.worker.beat_ms && t.ring.section ==> t.again(
            false,
            now_ms,
        ).writes.last() == Write::Beat,
        HEARTBEAT_EVERY_MS + FRAME_WAIT_MS < RING_HEARTBEAT_INTERVAL_MS,
{
}

/// Without a section the ring is never looked at, and nothing is written into it.
pub proof fn law_no_section_no_frames(t: Turn, status: i32, surface: bool, stop: bool)
    requires
        !t.ring.section,
        t.writes.len() == 0,
    ensures
        !(t.on_acquired(status, surface, stop).worker.waiting is Describe),
        forall|i: int|
            0 <= i < t.on_acquired(status, surface, stop).writes.len() ==> ({
                let w = #[trigger] t.on_acquired(status, surface, stop).writes[i];
                w is LiveState || w is WorkerExit
            }),
{
}

/// Whatever was described, the frame goes into textures of exactly that size and
/// format: either the ring has them, or they are asked for, and what the ring had is
/// retired first.
pub proof fn law_textures_fit_the_surface(t: Turn, width: u32, height: u32, format: u32, stop: bool)
    requires
        t.ring.wf(),
        t.ring.section,
        t.ring.policy.generation < u32::MAX,
    ensures
        ({
            let r = t.ring;
            let after = t.on_described(Some((width, height, format)), stop);
            let same = r.textures && r.tex_width == width && r.tex_height == height && r.tex_format
                == format;
            &&& after.worker.beat_ms == t.worker.beat_ms
            &&& after.worker.waiting is ReadSlots <==> same
            &&& same || !r.textures ==> after.ring == r && after.writes == t.writes
            &&& !same ==> {
                let made = after.on_created(true, stop);
                let missed = after.on_created(false, stop);
                &&& after.worker.waiting == (Act::Create {
                    generation: after.ring.policy.generation,
                    slots: r.policy.slots.len() as u32,
                    width,
                    height,
                    format,
                })
                &&& !after.ring.textures
                &&& made.worker.waiting is ReadSlots
                &&& made.ring.textures
                &&& made.ring.tex_width == width
                &&& made.ring.tex_height == height
                &&& made.ring.tex_format == format
                &&& made.ring.policy == after.ring.policy
                &&& made.ring.ever_published == after.ring.ever_published
                &&& made.writes == after.writes
                &&& missed.ring == after.ring
                &&& missed.worker.waiting == (if stop {
                    Act::Exit { duck: None }
                } else {
                    Act::Finish { failed: true }
                })
            }
            &&& !same && r.textures ==> {
                let g = r.policy.generation;
                &&& after.ring.policy.generation == g + 1
                &&& after.ring.policy.slots.len() == r.policy.slots.len()
                &&& forall|i: int|
                    0 <= i < r.policy.slots.len() ==> #[trigger] after.ring.policy.slots[i]
                        == Slot::Free && !after.ring.ever_published[i]
                &&& after.ring.policy.next_sequence == r.policy.next_sequence
                &&& after.ring.policy.frames_published == r.policy.frames_published
                &&& after.ring.policy.frames_dropped == r.policy.frames_dropped
                &&& after.writes == t.writes.push(Write::FreeAll).push(
                    Write::Generation((g + 1) as u32),
                )
            }
        }),
{
    let g = t.ring.policy.generation;
    assert(t.writes + seq![Write::FreeAll, Write::Generation((g + 1) as u32)] =~= t.writes.push(
        Write::FreeAll,
    ).push(Write::Generation((g + 1) as u32)));
    assert(t.writes + Seq::<Write>::empty() =~= t.writes);
}

/// A surface that could not be described costs the frame and the worker, and leaves
/// the ring as it was.
pub proof fn law_undescribed_surface_fails(t: Turn, stop: bool)
    ensures
        ({
            let after = t.on_described(None, stop);
            &&& after.ring == t.ring
            &&& after.worker.waiting == (if stop {
                Act::Exit { duck: None }
            } else {
                Act::Finish { failed: true }
            })
            &&& after.writes == (if stop {
                t.writes.push(Write::WorkerExit)
            } else {
                t.writes
            })
        }),
{
}

/// What becomes of a request for a buffer: pending waits for a frame, any other failure
/// breaks the worker, a frame without a surface is skipped, and one with a surface is
/// looked at if there is a section to put it in.
pub proof fn law_acquired_cases(t: Turn, status: i32, surface: bool)
    ensures
        ({
            let a = t.on_acquired(status, surface, false);
            let pending = status == 259 || status == -2147483638;
            &&& pending ==> a == t.waits_for(Act::Wait)
            &&& !pending && status != 0 ==> a.worker.waiting == Act::AskRemoved
            &&& status == 0 && !surface ==> a == t.waits_for(Act::Skip)
            &&& status == 0 && surface && t.ring.section ==> a == t.waits_for(Act::Describe)
            &&& status == 0 && surface && !t.ring.section ==> a == t.waits_for(
                Act::Finish { failed: false },
            )
            &&& pending || status == 0 ==> a.ring == t.ring && a.writes == t.writes
            &&& a.worker.beat_ms == t.worker.beat_ms
        }),
{
}

/// A slot that is to be taken was free or held the oldest frame nobody took, going by the
/// marks of the host; it is taken only if the section still says so: 0 for a free one, 2
/// for one with a frame. Without such a slot the frame is done with.
pub proof fn law_slot_to_take(t: Turn, states: Seq<u32>, stop: bool, i: int)
    requires
        t.ring.wf(),
        t.ring.idle(),
        t.ring.section,
        t.ring.policy.frames_dropped < u64::MAX,
        states.len() == t.ring.policy.slots.len(),
        0 <= i < states.len(),
    ensures
        ({
            let a = t.on_slots(states, stop);
            let n = states.len() as int;
            let old = t.ring.policy;
            let was_free = |j: int|
                states[j] == 0 || (old.slots[j] == Slot::Free && states[j] != 3);
            let unread = |j: int| states[j] != 0 && states[j] != 3 && old.slots[j] is Published;
            &&& a.worker.beat_ms == t.worker.beat_ms
            &&& a.worker.waiting matches Act::TakeSlot { index, expected } ==> {
                &&& index < n
                &&& expected == 0 || expected == 2
                &&& expected == 0 ==> was_free(index as int) && (i < index ==> !was_free(i))
                    && a.ring.policy.frames_dropped == old.frames_dropped
                &&& expected == 2 ==> unread(index as int) && !was_free(i) && (unread(i)
                    ==> old.slots[index as int]->Published_0 <= old.slots[i]->Published_0)
                    && a.ring.policy.frames_dropped == old.frames_dropped + 1
                &&& a.ring.policy.slots[index as int] == Slot::Writing
                &&& a.writes == t.writes
            }
            &&& !(a.worker.waiting is TakeSlot) ==> {
                &&& !was_free(i) && !unread(i)
                &&& a.worker.waiting == (if stop {
                    Act::Exit { duck: None }
                } else {
                    Act::Finish { failed: false }
                })
                &&& a.ring.policy.frames_dropped == old.frames_dropped + 1
                &&& a.writes == (if stop {
                    t.writes.push(Write::Beat).push(Write::WorkerExit)
                } else {
                    t.writes.push(Write::Beat)
                })
            }
            &&& a.ring.textures == t.ring.textures
            &&& a.ring.tex_width == t.ring.tex_width
            &&& a.ring.tex_height == t.ring.tex_height
            &&& a.ring.tex_format == t.ring.tex_format
            &&& a.ring.ever_published == t.ring.ever_published
            &&& a.ring.policy.next_sequence == old.next_sequence
            &&& a.ring.policy.frames_published == old.frames_published
            &&& a.ring.policy.generation == old.generation
        }),
{
    let seen = t.ring.reconciled(states);
    let n = states.len() as int;
    lemma_reconciled_wf(t.ring, states);
    crate::ring::law_writer_choice(seen.policy, i);
    assert forall|j: int| 0 <= j < n implies #[trigger] seen.policy.slots[j] == (if states[j] == 0 {
        Slot::Free
    } else if states[j] == 3 {
        Slot::Reading
    } else {
        t.ring.policy.slots[j]
    }) by {
        assert(t.ring.policy.slots[j] != Slot::Writing);
        crate::ring::law_host_marks(t.ring.policy.slots[j], states[j]);
    }
    assert(seen.policy.slots[i] == seen.policy.slots[i]);
    assert(t.writes + seq![Write::Beat] =~= t.writes.push(Write::Beat));
    if let Some(w) = seen.policy.writer_slot() {
        let k = w.index as int;
        crate::ring::law_writer_choice(seen.policy, k);
        assert(seen.policy.slots[k] == seen.policy.slots[k]);
    }
}

/// From the marked slot to the copy. The mutex is asked for under key 1 once the host has
/// had it, under key 0 before; a slot that the host took first costs the frame. Held, the
/// surface is copied, or the mutex goes back under the same key if the worker is to stop;
/// not had in time, the frame is given up; gone, the worker breaks.
pub proof fn law_lock_cases(t: Turn, index: int, key: u64, hr: i32, stop: bool)
    requires
        t.ring.wf(),
        t.ring.section,
        0 <= index < t.ring.policy.slots.len(),
        t.ring.policy.frames_dropped < u64::MAX,
    ensures
        ({
            let done = |failed: bool|
                if stop {
                    Act::Exit { duck: None }
                } else {
                    Act::Finish { failed }
                };
            let taken = t.on_taken(index, true, stop);
            let lost = t.on_taken(index, false, stop);
            let locked = t.on_locked(index, key, hr, stop);
            let back = t.on_unlocked(index, stop);
            &&& taken.worker.waiting == (Act::Lock {
                index: index as usize,
                key: if t.ring.ever_published[index] {
                    1
                } else {
                    0
                },
            })
            &&& taken.ring == t.ring && taken.writes == t.writes
            &&& lost.worker.waiting == done(false)
            &&& lost.ring.policy.slots[index] == Slot::Free
            &&& lost.ring.policy.frames_dropped == t.ring.policy.frames_dropped + 1
            &&& lost.writes.len() > t.writes.len() && lost.writes[t.writes.len() as int] == Write::Beat
            &&& hr == 0 && !stop ==> locked == t.waits_for(Act::Copy { index: index as usize })
            &&& hr == 0 && stop ==> locked == t.waits_for(Act::Unlock { index: index as usize, key })
            &&& hr != 0 ==> {
                &&& locked.worker.waiting == done(hr != 258)
                &&& locked.ring.policy.slots[index] == Slot::Free
                &&& locked.ring.policy.frames_dropped == t.ring.policy.frames_dropped + 1
                &&& locked.writes.len() > t.writes.len()
                &&& locked.writes[t.writes.len() as int] == Write::FreeSlot(index as usize)
            }
            &&& back.worker.waiting == done(false)
            &&& back.ring.policy.slots[index] == Slot::Free
            &&& back.ring.policy.frames_dropped == t.ring.policy.frames_dropped + 1
            &&& back.writes.len() > t.writes.len()
            &&& back.writes[t.writes.len() as int] == Write::FreeSlot(index as usize)
        }),
{
}

/// A copied frame is published in its slot under the next number, at the time it is to be
/// shown or, if that is unknown, now, together with the counters as they are then. A copy
/// that failed frees the slot and breaks the worker.
pub proof fn law_copied_cases(t: Turn, index: int, present_qpc: u64, now_qpc: u64, stop: bool)
    requires
        t.ring.wf(),
        t.ring.section,
        t.ring.has_room(),
        0 <= index < t.ring.policy.slots.len(),
    ensures
        ({
            let n = t.writes.len() as int;
            let old = t.ring.policy;
            let ok = t.on_copied(index, true, present_qpc, now_qpc, stop);
            let bad = t.on_copied(index, false, present_qpc, now_qpc, stop);
            &&& ok.worker.waiting == (if stop {
                Act::Exit { duck: None }
            } else {
                Act::Finish { failed: false }
            })
            &&& ok.ring.policy.slots[index] == Slot::Published(old.next_sequence)
            &&& ok.ring.policy.next_sequence == old.next_sequence + 1
            &&& ok.ring.policy.frames_published == old.frames_published + 1
            &&& ok.ring.policy.frames_dropped == old.frames_dropped
            &&& ok.ring.policy.generation == old.generation
            &&& ok.ring.ever_published[index]
            &&& ok.writes.len() == n + 1 + (if stop {
                1int
            } else {
                0
            })
            &&& ok.writes[n] == Write::Published(
                Publication {
                    index: index as usize,
                    sequence: old.next_sequence,
                    present_qpc: if present_qpc == 0 {
                        now_qpc
                    } else {
                        present_qpc
                    },
                    frames_published: (old.frames_published + 1) as u64,
                    frames_dropped: old.frames_dropped,
                },
            )
            &&& bad.worker.waiting == (if stop {
                Act::Exit { duck: None }
            } else {
                Act::Finish { failed: true }
            })
            &&& bad.ring.policy.slots[index] == Slot::Free
            &&& bad.ring.policy.frames_dropped == old.frames_dropped + 1
            &&& bad.ring.policy.next_sequence == old.next_sequence
            &&& bad.ring.ever_published == t.ring.ever_published
            &&& bad.writes.len() > n && bad.writes[n] == Write::FreeSlot(index as usize)
            &&& forall|i: int|
                0 <= i < old.slots.len() && i != index ==> #[trigger] ok.ring.policy.slots[i]
                    == old.slots[i] && bad.ring.policy.slots[i] == old.slots[i]
                    && ok.ring.ever_published[i] == t.ring.ever_published[i]
        }),
{
}

/// A frame that is done with refreshes the heartbeat. One that failed breaks the worker;
/// after any other the worker goes on, or leaves if it is to stop.
pub proof fn law_finished_cases(t: Turn, stop: bool, now_ms: u64)
    requires
        t.ring.section,
    ensures
        ({
            let n = t.writes.len() as int;
            let ok = t.on_finished(false, stop, now_ms);
            let bad = t.on_finished(true, stop, now_ms);
            &&& ok.worker.beat_ms == now_ms
            &&& ok.ring == t.ring
            &&& ok.worker.waiting == (if stop {
                Act::Exit { duck: None }
            } else {
                Act::Acquire
            })
            &&& ok.writes == (if stop {
                t.writes.push(Write::Beat).push(Write::WorkerExit)
            } else {
                t.writes.push(Write::Beat)
            })
            &&& bad.worker.beat_ms == now_ms
            &&& bad.worker.waiting == Act::AskRemoved
            &&& bad.writes.len() == n + 6
            &&& bad.writes[n] == Write::Beat
            &&& bad.writes[n + 1] == Write::State(2)
            &&& bad.writes[n + 2] == Write::FreeAll
            &&& bad.writes[n + 3] == Write::Generation((t.ring.policy.generation + 1) as u32)
            &&& bad.writes[n + 4] == Write::LiveState(2)
            &&& bad.writes[n + 5] == Write::WorkerExit
        }),
{
    assert(t.writes + seq![Write::Beat] =~= t.writes.push(Write::Beat));
}

/// The loop refreshes its heartbeat once a quarter of a second has gone by, and not
/// before.
pub proof fn law_beat_interval(t: Turn, now_ms: u64)
    requires
        t.ring.section,
        t.worker.beat_ms <= now_ms,
    ensures
        ({
            let a = t.again(false, now_ms);
            let due = now_ms - t.worker.beat_ms >= 250;
            &&& a.worker.waiting == Act::Acquire
            &&& a.ring == t.ring
            &&& a.worker.beat_ms == (if due {
                now_ms
            } else {
                t.worker.beat_ms
            })
            &&& a.writes == (if due {
                t.writes.push(Write::Beat)
            } else {
                t.writes
            })
        }),
{
    assert(t.writes + seq![Write::Beat] =~= t.writes.push(Write::Beat));
}

/// A worker that starts on a ring another worker has used retires what that one left; it
/// marks the ring as active, says that it is live, and asks for its first buffer.
pub proof fn law_worker_begins(ring: FrameModel, now_ms: u64)
    requires
        ring.wf(),
        ring.section,
        ring.policy.generation < u32::MAX,
    ensures
        ({
            let t = FrameWorker::begun(ring, now_ms);
            let k = if ring.assigned_before {
                2int
            } else {
                0
            };
            &&& t.worker.waiting == Act::Acquire
            &&& t.worker.beat_ms == now_ms
            &&& t.ring.assigned_before
            &&& t.ring.policy.generation == ring.policy.generation + (if ring.assigned_before {
                1int
            } else {
                0
            })
            &&& t.ring.textures == (ring.textures && !ring.assigned_before)
            &&& t.ring.policy.next_sequence == ring.policy.next_sequence
            &&& t.ring.policy.frames_published == ring.policy.frames_published
            &&& t.ring.policy.frames_dropped == ring.policy.frames_dropped
            &&& ring.assigned_before ==> t.ring.idle() && t.writes[0] == Write::FreeAll && t.writes[1]
                == Write::Generation((ring.policy.generation + 1) as u32)
            &&& !ring.assigned_before ==> t.ring.policy == ring.policy && t.ring.tex_width
                == ring.tex_width && t.ring.tex_height == ring.tex_height && t.ring.tex_format
                == ring.tex_format && t.ring.ever_published == ring.ever_published
            &&& t.writes.len() == k + 2
            &&& t.writes[k] == Write::State(1)
            &&& t.writes[k + 1] == Write::WorkerLive
        }),
{
}

/// Where each write goes in the section, and what a reader finds there.
pub proof fn law_writes_in_the_section(
    slot_count: nat,
    now_qpc: u64,
    index: usize,
    generation: u32,
    state: u32,
    i: int,
)
    requires
        0 <= i < slot_count,
    ensures
        ({
            let all = Write::FreeAll.section_part(slot_count, now_qpc);
            let one = Write::FreeSlot(index).section_part(slot_count, now_qpc);
            let gen = Write::Generation(generation).section_part(slot_count, now_qpc);
            let st = Write::State(state).section_part(slot_count, now_qpc);
            let beat = Write::Beat.section_part(slot_count, now_qpc);
            &&& all.len() == slot_count
            &&& all[i].offset == 128 + 80 * i && all[i].bytes.len() == 4 && u32_at(all[i].bytes, 0)
                == 0 && all[i].release
            &&& one.len() == 1 && one[0].offset == 128 + 80 * index && one[0].bytes.len() == 4
                && u32_at(one[0].bytes, 0) == 0 && one[0].release
            &&& gen.len() == 1 && gen[0].offset == 8 && gen[0].bytes.len() == 4 && u32_at(
                gen[0].bytes,
                0,
            ) == generation
            &&& st.len() == 1 && st[0].offset == 16 && st[0].bytes.len() == 4 && u32_at(
                st[0].bytes,
                0,
            ) == state && st[0].release
            &&& beat.len() == 1 && beat[0].offset == 56 && beat[0].bytes.len() == 8 && u64_at(
                beat[0].bytes,
                0,
            ) == now_qpc
            &&& Write::WorkerLive.section_part(slot_count, now_qpc).len() == 0
            &&& Write::LiveState(state).section_part(slot_count, now_qpc).len() == 0
            &&& Write::WorkerExit.section_part(slot_count, now_qpc).len() == 0
        }),
{
    law_u32_reads_back(0);
    law_u32_reads_back(generation);
    law_u32_reads_back(state);
    law_u64_reads_back(now_qpc);
}

/// The waits of a frame worker in milliseconds and the statuses that it knows.
pub proof fn law_worker_values()
    ensures
        HEARTBEAT_EVERY_MS == 250 && FRAME_WAIT_MS == 100 && STOP_DEADLINE_MS == 500,
        STATUS_PENDING == 259 && E_PENDING == -2147483638 && WAIT_TIMEOUT_HR == 258,
{
}

} // verus!
