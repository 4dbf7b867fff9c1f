//! Drop-oldest frame ring.
//!
//! The writer never waits for the reader: with no free slot it overwrites the
//! oldest published frame, and with every slot in the reader's hands it drops the
//! new one. Sequence numbers keep rising across drops and rebuilds, so the reader
//! finds gaps by arithmetic. A slot the reader holds is never touched.
use vstd::prelude::*;

use crate::proto::slot_state;
use crate::proto::ABI_MAX_RING_SLOTS;

verus! {

/// What is in a slot.
#[derive(Clone, Copy, Debug, PartialEq, Eq, Structural)]
pub enum Slot {
    Free,
    Writing,
    /// A frame nobody has taken yet, by its sequence number.
    Published(u64),
    Reading,
}

/// A slot to write into.
#[derive(Clone, Copy, Debug, PartialEq, Eq, Structural)]
pub struct WriterSlot {
    pub index: usize,
    /// Sequence of the unread frame this write overwrites, if any.
    pub overwrote: Option<u64>,
}

/// What a ring holds.
pub struct RingModel {
    pub slots: Seq<Slot>,
    pub next_sequence: u64,
    pub generation: u32,
    pub frames_published: u64,
    pub frames_dropped: u64,
}

impl RingModel {
    /// Numbers are given out from 1 on, one per published frame; the frames still in
    /// the ring have distinct numbers, all of them already given out.
    pub open spec fn wf(self) -> bool {
        &&& 2 <= self.slots.len() <= ABI_MAX_RING_SLOTS
        &&& self.next_sequence == self.frames_published + 1
        &&& forall|i: int|
            0 <= i < self.slots.len() ==> (#[trigger] self.slots[i] matches Slot::Published(s) ==> s
                < self.next_sequence)
        &&& forall|i: int, j: int|
            0 <= i < j < self.slots.len() && self.slots[i] is Published && self.slots[j] is Published
                ==> #[trigger] self.slots[i] != #[trigger] self.slots[j]
    }

    pub open spec fn has_free(self) -> bool {
        self.slots.contains(Slot::Free)
    }

    pub open spec fn has_published(self) -> bool {
        exists|i: int| 0 <= i < self.slots.len() && #[trigger] self.slots[i] is Published
    }

    /// The first free slot.
    pub open spec fn is_first_free(self, i: int) -> bool {
        &&& 0 <= i < self.slots.len()
        &&& self.slots[i] == Slot::Free
        &&& forall|j: int| 0 <= j < i ==> #[trigger] self.slots[j] != Slot::Free
    }

    /// The slot of the published frame with the smallest number.
    pub open spec fn is_oldest(self, i: int) -> bool {
        &&& 0 <= i < self.slots.len()
        &&& self.slots[i] is Published
        &&& forall|j: int|
            0 <= j < self.slots.len() && #[trigger] self.slots[j] is Published ==> self.slots[i]->Published_0
                <= self.slots[j]->Published_0
    }

    /// The slot of the published frame with the largest number.
    pub open spec fn is_newest(self, i: int) -> bool {
        &&& 0 <= i < self.slots.len()
        &&& self.slots[i] is Published
        &&& forall|j: int|
            0 <= j < self.slots.len() && #[trigger] self.slots[j] is Published ==> self.slots[j]->Published_0
                <= self.slots[i]->Published_0
    }

    /// The slot the writer gets: a free one, else that of the oldest frame, else
    /// none.
    pub open spec fn writer_slot(self) -> Option<WriterSlot> {
        if self.has_free() {
            Some(
                WriterSlot {
                    index: (choose|i: int| self.is_first_free(i)) as usize,
                    overwrote: None,
                },
            )
        } else if self.has_published() {
            let i = choose|i: int| self.is_oldest(i);
            Some(WriterSlot { index: i as usize, overwrote: Some(self.slots[i]->Published_0) })
        } else {
            None
        }
    }

    /// The ring after the writer asked for a slot. A frame that gives way, or that
    /// found no slot, is counted as dropped.
    pub open spec fn after_writer_acquire(self) -> RingModel {
        match self.writer_slot() {
            None => RingModel { frames_dropped: (self.frames_dropped + 1) as u64, ..self },
            Some(w) => RingModel {
                slots: self.slots.update(w.index as int, Slot::Writing),
                frames_dropped: if w.overwrote is Some {
                    (self.frames_dropped + 1) as u64
                } else {
                    self.frames_dropped
                },
                ..self
            },
        }
    }

    /// The ring after the writer gave up on slot `i`: the slot is free and the frame
    /// counts as dropped.
    pub open spec fn aborted(self, i: int) -> RingModel {
        RingModel {
            slots: self.slots.update(i, Slot::Free),
            frames_dropped: (self.frames_dropped + 1) as u64,
            ..self
        }
    }

    /// The ring after slot `i` was published under the next number.
    pub open spec fn published(self, i: int) -> RingModel {
        RingModel {
            slots: self.slots.update(i, Slot::Published(self.next_sequence)),
            next_sequence: (self.next_sequence + 1) as u64,
            frames_published: (self.frames_published + 1) as u64,
            ..self
        }
    }

    /// The ring after a device reset: nothing in it, in the next generation.
    pub open spec fn rebuilt(self) -> RingModel {
        RingModel {
            slots: Seq::new(self.slots.len(), |i: int| Slot::Free),
            generation: (self.generation + 1) as u32,
            ..self
        }
    }

    /// The frame the reader gets: the newest.
    pub open spec fn reader_slot(self) -> Option<(usize, u64)> {
        if self.has_published() {
            let i = choose|i: int| self.is_newest(i);
            Some((i as usize, self.slots[i]->Published_0))
        } else {
            None
        }
    }

    /// What the reader's mark on a slot makes of it. Marks on a slot the writer
    /// owns, and unknown marks, are ignored.
    pub open spec fn reconciled(slot: Slot, shared_state: u32) -> Slot {
        match slot {
            Slot::Published(_) => if shared_state == slot_state::READING {
                Slot::Reading
            } else if shared_state == slot_state::FREE {
                Slot::Free
            } else {
                slot
            },
            Slot::Reading => if shared_state == slot_state::FREE {
                Slot::Free
            } else {
                slot
            },
            Slot::Free => if shared_state == slot_state::READING {
                Slot::Reading
            } else {
                slot
            },
            Slot::Writing => slot,
        }
    }
}

#[derive(Debug)]
pub struct RingPolicy {
    pub slots: Vec<Slot>,
    pub next_sequence: u64,
    pub generation: u32,
    pub frames_published: u64,
    pub frames_dropped: u64,
}

impl View for RingPolicy {
    type V = RingModel;

    open spec fn view(&self) -> RingModel {
        RingModel {
            slots: self.slots@,
            next_sequence: self.next_sequence,
            generation: self.generation,
            frames_published: self.frames_published,
            frames_dropped: self.frames_dropped,
        }
    }
}

impl RingPolicy {
    pub open spec fn wf(&self) -> bool {
        self@.wf()
    }

    /// A ring of `slot_count` free slots, at least two and at most the ceiling.
    pub fn new(slot_count: u32) -> (r: Self)
        ensures
            r.wf(),
            r@.slots == Seq::new(
                if slot_count < 2 {
                    2
                } else if slot_count > ABI_MAX_RING_SLOTS {
                    ABI_MAX_RING_SLOTS as nat
                } else {
                    slot_count as nat
                },
                |i: int| Slot::Free,
            ),
            r@.next_sequence == 1,
            r@.generation == 1,
            r@.frames_published == 0,
            r@.frames_dropped == 0,
    {
        let n: usize = if slot_count < 2 {
            2
        } else if slot_count > ABI_MAX_RING_SLOTS {
            ABI_MAX_RING_SLOTS as usize
        } else {
            slot_count as usize
        };
        let mut slots: Vec<Slot> = Vec::new();
        while slots.len() < n
            invariant
                slots@.len() <= n,
                forall|i: int| 0 <= i < slots@.len() ==> #[trigger] slots@[i] == Slot::Free,
            decreases n - slots@.len(),
        {
            slots.push(Slot::Free);
        }
        let r = RingPolicy {
            slots,
            next_sequence: 1,
            generation: 1,
            frames_published: 0,
            frames_dropped: 0,
        };
        assert(r@.slots =~= Seq::new(n as nat, |i: int| Slot::Free));
        r
    }

    pub fn slot_count(&self) -> (r: usize)
        ensures
            r == self@.slots.len(),
    {
        self.slots.len()
    }

    pub fn slot(&self, index: usize) -> (r: Slot)
        requires
            index < self@.slots.len(),
        ensures
            r == self@.slots[index as int],
    {
        self.slots[index]
    }

    /// The published slot whose number is extreme: the largest if `newest`, else
    /// the smallest.
    fn extreme(&self, newest: bool) -> (r: Option<(usize, u64)>)
        requires
            self.wf(),
        ensures
            r is Some <==> self@.has_published(),
            r matches Some((i, seq)) ==> i < self@.slots.len() && self@.slots[i as int]
                == Slot::Published(seq) && (if newest {
                self@.is_newest(i as int)
            } else {
                self@.is_oldest(i as int)
            }),
    {
        let mut best: Option<(usize, u64)> = None;
        let mut i: usize = 0;
        while i < self.slots.len()
            invariant
                i <= self.slots@.len(),
                best is None ==> forall|j: int| 0 <= j < i ==> !(#[trigger] self.slots@[j] is Published),
                best matches Some((b, seq)) ==> b < i && self.slots@[b as int] == Slot::Published(seq)
                    && forall|j: int|
                    0 <= j < i && #[trigger] self.slots@[j] is Published ==> (if newest {
                        self.slots@[j]->Published_0 <= seq
                    } else {
                        seq <= self.slots@[j]->Published_0
                    }),
            decreases self.slots@.len() - i,
        {
            if let Slot::Published(seq) = self.slots[i] {
                best = match best {
                    None => Some((i, seq)),
                    Some((b, held)) => if (newest && seq >= held) || (!newest && seq < held) {
                        Some((i, seq))
                    } else {
                        Some((b, held))
                    },
                };
            }
            i += 1;
        }
        best
    }

    /// A new frame: pick the slot to write it into. `None` drops the frame.
    pub fn writer_acquire(&mut self) -> (r: Option<WriterSlot>)
        requires
            old(self).wf(),
            old(self)@.frames_dropped < u64::MAX,
        ensures
            final(self).wf(),
            r == old(self)@.writer_slot(),
            final(self)@ == old(self)@.after_writer_acquire(),
            r matches Some(w) ==> w.index < old(self)@.slots.len(),
            r matches Some(w) ==> final(self)@.slots[w.index as int] == Slot::Writing,
    {
        let ghost before = self@;
        let mut i: usize = 0;
        while i < self.slots.len()
            invariant
                *self == *old(self),
                before == self@,
                before.wf(),
                i <= self.slots@.len(),
                forall|j: int| 0 <= j < i ==> #[trigger] self.slots@[j] != Slot::Free,
            decreases self.slots@.len() - i,
        {
            if self.slots[i] == Slot::Free {
                self.slots[i] = Slot::Writing;
                proof {
                    assert(before.slots[i as int] == Slot::Free);
                    assert(before.is_first_free(i as int));
                    let k = choose|k: int| before.is_first_free(k);
                    assert(before.is_first_free(k));
                    assert(k == i);
                }
                return Some(WriterSlot { index: i, overwrote: None });
            }
            i += 1;
        }
        match self.extreme(false) {
            Some((i, seq)) => {
                proof {
                    let k = choose|k: int| before.is_oldest(k);
                    assert(before.is_oldest(i as int));
                    assert(before.is_oldest(k));
                    assert(k == i) by {
                        if k < i {
                            assert(before.slots[k] != before.slots[i as int]);
                        }
                        if i < k {
                            assert(before.slots[i as int] != before.slots[k]);
                        }
                    }
                }
                self.slots[i] = Slot::Writing;
                self.frames_dropped += 1;
                Some(WriterSlot { index: i, overwrote: Some(seq) })
            },
            None => {
                self.frames_dropped += 1;
                None
            },
        }
    }

    /// The writer could not complete the frame: free the slot without publishing.
    /// The frame counts as dropped.
    pub fn writer_abort(&mut self, index: usize)
        requires
            old(self).wf(),
            index < old(self)@.slots.len(),
            old(self)@.slots[index as int] == Slot::Writing,
            old(self)@.frames_dropped < u64::MAX,
        ensures
            final(self).wf(),
            final(self)@ == old(self)@.aborted(index as int),
    {
        self.slots[index] = Slot::Free;
        self.frames_dropped += 1;
    }

    /// The frame is complete: publish it. Returns its sequence number.
    pub fn publish(&mut self, index: usize) -> (r: u64)
        requires
            old(self).wf(),
            index < old(self)@.slots.len(),
            old(self)@.slots[index as int] == Slot::Writing,
            old(self)@.next_sequence < u64::MAX,
            old(self)@.frames_published < u64::MAX,
        ensures
            final(self).wf(),
            r == old(self)@.next_sequence,
            r == old(self)@.frames_published + 1,
            r == final(self)@.frames_published,
            final(self)@ == old(self)@.published(index as int),
    {
        let seq: u64 = self.next_sequence;
        self.next_sequence += 1;
        self.frames_published += 1;
        self.slots[index] = Slot::Published(seq);
        seq
    }

    /// The reader checks out the newest frame. Older ones stay eligible to be
    /// overwritten.
    pub fn reader_acquire_latest(&mut self) -> (r: Option<(usize, u64)>)
        requires
            old(self).wf(),
        ensures
            final(self).wf(),
            r == old(self)@.reader_slot(),
            r matches Some((i, seq)) ==> i < old(self)@.slots.len() && final(self)@ == (RingModel {
                slots: old(self)@.slots.update(i as int, Slot::Reading),
                ..old(self)@
            }),
            r is None ==> final(self)@ == old(self)@,
    {
        let ghost before = self@;
        match self.extreme(true) {
            Some((i, seq)) => {
                proof {
                    let k = choose|k: int| before.is_newest(k);
                    assert(before.is_newest(i as int));
                    assert(before.is_newest(k));
                    assert(k == i) by {
                        if k < i {
                            assert(before.slots[k] != before.slots[i as int]);
                        }
                        if i < k {
                            assert(before.slots[i as int] != before.slots[k]);
                        }
                    }
                }
                self.slots[i] = Slot::Reading;
                Some((i, seq))
            },
            None => None,
        }
    }

    /// The reader gives a slot back.
    pub fn reader_release(&mut self, index: usize)
        requires
            old(self).wf(),
            index < old(self)@.slots.len(),
            old(self)@.slots[index as int] == Slot::Reading,
        ensures
            final(self).wf(),
            final(self)@ == (RingModel {
                slots: old(self)@.slots.update(index as int, Slot::Free),
                ..old(self)@
            }),
    {
        self.slots[index] = Slot::Free;
    }

    /// Take over the mark the reader left in the shared slot metadata. Called for
    /// every slot before the writer decides, so that a held slot is never chosen
    /// and a consumed one is reused without counting a drop.
    pub fn reconcile_shared(&mut self, index: usize, shared_state: u32)
        requires
            old(self).wf(),
            index < old(self)@.slots.len(),
        ensures
            final(self).wf(),
            final(self)@ == (RingModel {
                slots: old(self)@.slots.update(
                    index as int,
                    RingModel::reconciled(old(self)@.slots[index as int], shared_state),
                ),
                ..old(self)@
            }),
    {
        let cur = self.slots[index];
        let next = match cur {
            Slot::Published(_) => if shared_state == slot_state::READING {
                Slot::Reading
            } else if shared_state == slot_state::FREE {
                Slot::Free
            } else {
                cur
            },
            Slot::Reading => if shared_state == slot_state::FREE {
                Slot::Free
            } else {
                cur
            },
            Slot::Free => if shared_state == slot_state::READING {
                Slot::Reading
            } else {
                cur
            },
            Slot::Writing => cur,
        };
        self.slots[index] = next;
    }

    /// Start over after a device reset: every slot free, a new generation, and
    /// sequence numbers that continue.
    pub fn rebuild(&mut self) -> (r: u32)
        requires
            old(self).wf(),
            old(self)@.generation < u32::MAX,
        ensures
            final(self).wf(),
            r == old(self)@.generation + 1,
            final(self)@ == old(self)@.rebuilt(),
    {
        let mut i: usize = 0;
        while i < self.slots.len()
            invariant
                i <= self.slots@.len(),
                self.slots@.len() == old(self).slots@.len(),
                forall|j: int| 0 <= j < i ==> #[trigger] self.slots@[j] == Slot::Free,
                self.next_sequence == old(self).next_sequence,
                self.generation == old(self).generation,
                self.frames_published == old(self).frames_published,
                self.frames_dropped == old(self).frames_dropped,
            decreases self.slots@.len() - i,
        {
            self.slots[i] = Slot::Free;
            i += 1;
        }
        self.generation += 1;
        assert(self@.slots =~= Seq::new(old(self)@.slots.len(), |i: int| Slot::Free));
        self.generation
    }
}

/// The writer never gets a slot the reader holds, and never changes one.
pub proof fn law_writer_spares_held_slots(r: RingModel, i: int)
    requires
        r.wf(),
        0 <= i < r.slots.len(),
        r.slots[i] == Slot::Reading,
    ensures
        r.writer_slot() matches Some(w) ==> w.index != i,
        r.after_writer_acquire().slots[i] == Slot::Reading,
{
    lemma_writer_slot(r);
}

/// The writer is turned away only when every slot is held or already being written.
pub proof fn law_writer_refused_only_when_full(r: RingModel)
    requires
        r.wf(),
    ensures
        r.writer_slot() is None <==> forall|i: int|
            0 <= i < r.slots.len() ==> (#[trigger] r.slots[i] == Slot::Reading || r.slots[i]
                == Slot::Writing),
{
    if r.writer_slot() is None {
        assert forall|i: int| 0 <= i < r.slots.len() implies (#[trigger] r.slots[i] == Slot::Reading
            || r.slots[i] == Slot::Writing) by {
            assert(!r.slots.contains(Slot::Free));
            assert(!(r.slots[i] is Published));
        }
    } else if r.has_free() {
        let i = r.slots.index_of(Slot::Free);
        assert(r.slots[i] == Slot::Free);
    }
}

/// A frame is overwritten only when no slot is free, and then it is the oldest.
pub proof fn law_oldest_frame_gives_way(r: RingModel)
    requires
        r.wf(),
    ensures
        r.writer_slot() matches Some(w) ==> (w.overwrote matches Some(seq) ==> !r.has_free()
            && forall|j: int|
            0 <= j < r.slots.len() && #[trigger] r.slots[j] is Published ==> seq
                <= r.slots[j]->Published_0),
{
    lemma_writer_slot(r);
}

/// Where the writer's slot stands.
pub proof fn lemma_writer_slot(r: RingModel)
    requires
        r.wf(),
    ensures
        r.writer_slot() matches Some(w) ==> 0 <= w.index < r.slots.len() && (match w.overwrote {
            None => r.is_first_free(w.index as int),
            Some(seq) => !r.has_free() && r.is_oldest(w.index as int) && r.slots[w.index as int]
                == Slot::Published(seq),
        }),
{
    if r.has_free() {
        lemma_first_free(r, r.slots.index_of(Slot::Free));
        let i = choose|i: int| r.is_first_free(i);
        assert(r.is_first_free(i));
    } else if r.has_published() {
        lemma_oldest(r);
        let i = choose|i: int| r.is_oldest(i);
        assert(r.is_oldest(i));
    }
}

proof fn lemma_first_free(r: RingModel, i: int)
    requires
        0 <= i < r.slots.len(),
        r.slots[i] == Slot::Free,
    ensures
        exists|k: int| r.is_first_free(k),
    decreases i,
{
    if exists|j: int| 0 <= j < i && r.slots[j] == Slot::Free {
        let j = choose|j: int| 0 <= j < i && r.slots[j] == Slot::Free;
        lemma_first_free(r, j);
    } else {
        assert(r.is_first_free(i));
    }
}

proof fn lemma_oldest(r: RingModel)
    requires
        r.has_published(),
    ensures
        exists|k: int| r.is_oldest(k),
{
    let i = choose|i: int| 0 <= i < r.slots.len() && #[trigger] r.slots[i] is Published;
    lemma_oldest_below(r, i);
}

proof fn lemma_oldest_below(r: RingModel, i: int)
    requires
        0 <= i < r.slots.len(),
        r.slots[i] is Published,
    ensures
        exists|k: int| r.is_oldest(k),
    decreases r.slots[i]->Published_0,
{
    if r.is_oldest(i) {
    } else {
        let j = choose|j: int|
            0 <= j < r.slots.len() && #[trigger] r.slots[j] is Published && r.slots[j]->Published_0
                < r.slots[i]->Published_0;
        lemma_oldest_below(r, j);
    }
}

/// Numbers are given out without gaps and never twice: only publishing takes one,
/// and neither a drop, an abort nor a rebuild turns the count back.
pub proof fn law_sequences_continue(r: RingModel, i: int)
    requires
        r.wf(),
        0 <= i < r.slots.len(),
        r.next_sequence < u64::MAX,
    ensures
        r.after_writer_acquire().next_sequence == r.next_sequence,
        r.aborted(i).next_sequence == r.next_sequence,
        r.rebuilt().next_sequence == r.next_sequence,
        r.published(i).next_sequence == r.next_sequence + 1,
        r.published(i).slots[i] == Slot::Published(r.next_sequence),
        !r.slots.contains(Slot::Published(r.next_sequence)),
{
}

/// Anything that can happen to a ring.
pub enum RingStep {
    WriterAcquire,
    WriterAbort(int),
    Publish(int),
    /// The reader takes the slot, or gives it back.
    Reader(int, Slot),
    /// The reader's mark on a slot is taken over.
    Mark(int, u32),
    Rebuild,
}

impl RingModel {
    pub open spec fn after(self, step: RingStep) -> RingModel {
        match step {
            RingStep::WriterAcquire => self.after_writer_acquire(),
            RingStep::WriterAbort(i) => self.aborted(i),
            RingStep::Publish(i) => self.published(i),
            RingStep::Reader(i, slot) => RingModel { slots: self.slots.update(i, slot), ..self },
            RingStep::Mark(i, state) => RingModel {
                slots: self.slots.update(i, RingModel::reconciled(self.slots[i], state)),
                ..self
            },
            RingStep::Rebuild => self.rebuilt(),
        }
    }

    pub open spec fn after_all(self, steps: Seq<RingStep>) -> RingModel
        decreases steps.len(),
    {
        if steps.len() == 0 {
            self
        } else {
            self.after_all(steps.drop_last()).after(steps.last())
        }
    }

    /// The numbers that the publishes among some steps return, in order.
    pub open spec fn numbers(self, steps: Seq<RingStep>) -> Seq<u64>
        decreases steps.len(),
    {
        if steps.len() == 0 {
            Seq::empty()
        } else {
            let before = self.numbers(steps.drop_last());
            if steps.last() is Publish {
                before.push(self.after_all(steps.drop_last()).next_sequence)
            } else {
                before
            }
        }
    }
}

/// The publishes of a new ring return 1, 2, 3 and so on without a gap, whatever is
/// overwritten, aborted, taken or rebuilt between them, and the ring counts as many
/// frames as it has given numbers.
pub proof fn law_publishes_are_numbered_in_order(r: RingModel, steps: Seq<RingStep>)
    requires
        r.next_sequence == 1,
        r.frames_published == 0,
        steps.len() < u64::MAX - 1,
    ensures
        ({
            let n = r.numbers(steps);
            &&& forall|k: int| 0 <= k < n.len() ==> #[trigger] n[k] == k + 1
            &&& n.len() <= steps.len()
            &&& r.after_all(steps).frames_published == n.len()
            &&& r.after_all(steps).next_sequence == n.len() + 1
        }),
    decreases steps.len(),
{
    if steps.len() > 0 {
        law_publishes_are_numbered_in_order(r, steps.drop_last());
    }
}

/// Every frame the writer began is published or counted as dropped, and every frame
/// that gave way is counted.
pub proof fn law_frames_are_accounted_for(r: RingModel, i: int)
    requires
        r.wf(),
        0 <= i < r.slots.len(),
        r.frames_dropped < u64::MAX,
        r.frames_published < u64::MAX,
    ensures
        r.aborted(i).frames_dropped == r.frames_dropped + 1,
        r.published(i).frames_published == r.frames_published + 1,
        r.writer_slot() is None ==> r.after_writer_acquire().frames_dropped == r.frames_dropped + 1,
        r.writer_slot() matches Some(w) ==> r.after_writer_acquire().frames_dropped
            == r.frames_dropped + (if w.overwrote is Some {
            1int
        } else {
            0int
        }),
{
}

/// A mark of the reader never brings a frame back, and never takes a slot from the
/// writer.
pub proof fn law_reader_marks_are_harmless(slot: Slot, shared_state: u32)
    ensures
        slot == Slot::Writing ==> RingModel::reconciled(slot, shared_state) == Slot::Writing,
        RingModel::reconciled(slot, shared_state) != slot ==> RingModel::reconciled(
            slot,
            shared_state,
        ) == Slot::Free || RingModel::reconciled(slot, shared_state) == Slot::Reading,
        shared_state == slot_state::READING && slot != Slot::Writing ==> RingModel::reconciled(
            slot,
            shared_state,
        ) == Slot::Reading,
        shared_state == slot_state::FREE && slot != Slot::Writing ==> RingModel::reconciled(
            slot,
            shared_state,
        ) == Slot::Free,
{
}

/// Which slot a new frame gets: the first free one; with none free, that of the oldest
/// frame nobody has taken, which counts as dropped; with none of those either, none, and
/// the new frame counts as dropped. Nothing else about the ring changes.
pub proof fn law_writer_choice(r: RingModel, i: int)
    requires
        r.wf(),
        r.frames_dropped < u64::MAX,
        0 <= i < r.slots.len(),
    ensures
        ({
            let n = r.after_writer_acquire();
            let free = exists|j: int| 0 <= j < r.slots.len() && #[trigger] r.slots[j] == Slot::Free;
            let unread = exists|j: int| 0 <= j < r.slots.len() && #[trigger] r.slots[j] is Published;
            &&& r.writer_slot() is Some <==> free || unread
            &&& r.writer_slot() matches Some(w) ==> {
                &&& w.index < r.slots.len()
                &&& w.overwrote is Some <==> !free
                &&& free ==> r.slots[w.index as int] == Slot::Free && (i < w.index ==> r.slots[i]
                    != Slot::Free)
                &&& !free ==> {
                    &&& r.slots[w.index as int] == Slot::Published(w.overwrote->0)
                    &&& r.slots[i] is Published ==> w.overwrote->0 <= r.slots[i]->Published_0
                }
                &&& n.slots[w.index as int] == Slot::Writing
                &&& i != w.index ==> n.slots[i] == r.slots[i]
            }
            &&& r.writer_slot() is None ==> n.slots == r.slots
            &&& n.frames_dropped == r.frames_dropped + (if free {
                0int
            } else {
                1
            })
            &&& n.slots.len() == r.slots.len()
            &&& n.frames_published == r.frames_published
            &&& n.next_sequence == r.next_sequence
            &&& n.generation == r.generation
        }),
{
    lemma_writer_slot(r);
    if r.has_free() {
        let k = r.slots.index_of(Slot::Free);
        assert(r.slots[k] == Slot::Free);
    } else {
        assert forall|j: int| 0 <= j < r.slots.len() implies #[trigger] r.slots[j] != Slot::Free by {
            if r.slots[j] == Slot::Free {
                assert(r.slots.contains(r.slots[j]));
            }
        }
    }
}

/// What publishing, giving up and starting over do to a ring, slot by slot and counter
/// by counter.
pub proof fn law_slot_outcomes(r: RingModel, index: int, i: int)
    requires
        r.wf(),
        0 <= index < r.slots.len(),
        0 <= i < r.slots.len(),
        r.frames_dropped < u64::MAX,
        r.frames_published < u64::MAX,
        r.next_sequence < u64::MAX,
        r.generation < u32::MAX,
    ensures
        ({
            let p = r.published(index);
            let a = r.aborted(index);
            let b = r.rebuilt();
            &&& p.slots.len() == r.slots.len() && a.slots.len() == r.slots.len() && b.slots.len()
                == r.slots.len()
            &&& p.slots[i] == (if i == index {
                Slot::Published(r.next_sequence)
            } else {
                r.slots[i]
            })
            &&& p.next_sequence == r.next_sequence + 1
            &&& p.frames_published == r.frames_published + 1
            &&& p.frames_dropped == r.frames_dropped
            &&& p.generation == r.generation
            &&& a.slots[i] == (if i == index {
                Slot::Free
            } else {
                r.slots[i]
            })
            &&& a.next_sequence == r.next_sequence
            &&& a.frames_published == r.frames_published
            &&& a.frames_dropped == r.frames_dropped + 1
            &&& a.generation == r.generation
            &&& b.slots[i] == Slot::Free
            &&& b.next_sequence == r.next_sequence
            &&& b.frames_published == r.frames_published
            &&& b.frames_dropped == r.frames_dropped
            &&& b.generation == r.generation + 1
        }),
{
}

/// The reader gets the newest frame nobody has taken, if there is any.
pub proof fn law_reader_gets_the_newest(r: RingModel, i: int)
    requires
        r.wf(),
        0 <= i < r.slots.len(),
    ensures
        r.reader_slot() is None ==> !(r.slots[i] is Published),
        r.reader_slot() matches Some((k, seq)) ==> {
            &&& k < r.slots.len()
            &&& r.slots[k as int] == Slot::Published(seq)
            &&& r.slots[i] is Published ==> r.slots[i]->Published_0 <= seq
        },
{
    if r.has_published() {
        let j = choose|j: int| 0 <= j < r.slots.len() && #[trigger] r.slots[j] is Published;
        lemma_newest_above(r, j);
        let k = choose|k: int| r.is_newest(k);
        assert(r.is_newest(k));
    }
}

proof fn lemma_newest_above(r: RingModel, i: int)
    requires
        0 <= i < r.slots.len(),
        r.slots[i] is Published,
    ensures
        exists|k: int| r.is_newest(k),
    decreases u64::MAX - r.slots[i]->Published_0,
{
    if r.is_newest(i) {
    } else {
        let j = choose|j: int|
            0 <= j < r.slots.len() && #[trigger] r.slots[j] is Published && r.slots[j]->Published_0
                > r.slots[i]->Published_0;
        lemma_newest_above(r, j);
    }
}

/// What the host's mark makes of a slot: 0 hands it back, 3 keeps it, anything else says
/// nothing; and a slot that is being written is the driver's whatever the mark says.
pub proof fn law_host_marks(slot: Slot, mark: u32)
    ensures
        RingModel::reconciled(slot, mark) == (if slot is Writing {
            Slot::Writing
        } else if mark == 0 {
            Slot::Free
        } else if mark == 3 {
            Slot::Reading
        } else {
            slot
        }),
{
}

} // verus!
