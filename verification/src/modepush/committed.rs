//! The modes the operating system has committed, per monitor.
//!
//! The record is written from callbacks that may not wait and read from a worker.
//! A slot carries a version that is odd while it is being written; a reader accepts
//! what it read only if the version was even and did not move. Writers share one
//! word: whoever finds it taken leaves a mark instead of waiting, and the holder
//! clears the record when it hands the word back, so that a lost write can only
//! ever leave nothing behind, never something stale.
use vstd::prelude::*;

use crate::modepush::protocol::{took_record, version_closed, version_open};
use crate::modes::Mode;

verus! {

/// Slots of the record, one per monitor an adapter can have.
pub const MAX_COMMITTED_PATHS: usize = 16;

/// Bounded attempts of one slot read.
pub const READ_RETRIES: u32 = 4;

/// Nobody holds the record.
pub const FREE: u32 = 0;

/// A writer holds the record.
pub const WRITING: u32 = 1;

/// A writer was turned away while the record was held.
pub const CONTENDED: u32 = 2;

/// A mode the operating system has committed, as far as a path describes it.
#[derive(Clone, Copy, Debug, PartialEq, Eq, Structural)]
pub struct CommittedMode {
    pub width: u32,
    pub height: u32,
    pub refresh_millihz: u32,
}

impl CommittedMode {
    /// The refresh rate of a rational frequency, in millihertz, if the path carries
    /// one that makes sense.
    pub open spec fn of_signal(width: u32, height: u32, vsync_num: u64, vsync_den: u64) -> Option<
        CommittedMode,
    > {
        if width == 0 || height == 0 || vsync_den == 0 || vsync_num * 1000 > u64::MAX {
            None
        } else {
            let millihz = vsync_num as int * 1000 / vsync_den as int;
            if millihz == 0 || millihz > u32::MAX {
                None
            } else {
                Some(CommittedMode { width, height, refresh_millihz: millihz as u32 })
            }
        }
    }

    /// The committed mode of a path. The frequency may come back as a reduced
    /// fraction, so the rate is computed from both parts.
    pub fn from_signal(width: u32, height: u32, vsync_num: u64, vsync_den: u64) -> (r: Option<Self>)
        ensures
            r == CommittedMode::of_signal(width, height, vsync_num, vsync_den),
    {
        if width == 0 || height == 0 || vsync_den == 0 {
            return None;
        }
        let scaled: u64 = vsync_num.checked_mul(1000)?;
        let millihz: u64 = scaled / vsync_den;
        if millihz == 0 || millihz > u32::MAX as u64 {
            return None;
        }
        Some(CommittedMode { width, height, refresh_millihz: millihz as u32 })
    }

    /// Equal in everything a path describes.
    pub open spec fn matches_mode(self, mode: Mode) -> bool {
        mode.width == self.width && mode.height == self.height && mode.refresh_millihz
            == self.refresh_millihz
    }

    pub fn is(&self, mode: &Mode) -> (r: bool)
        ensures
            r == self.matches_mode(*mode),
    {
        mode.width == self.width && mode.height == self.height && mode.refresh_millihz
            == self.refresh_millihz
    }
}

/// What one attempt to read a slot came to.
#[derive(Clone, Copy, Debug, PartialEq, Eq, Structural)]
pub enum SlotRead {
    /// A write was going on.
    Retry,
    Empty,
    Found(u64, CommittedMode),
}

/// Both dimensions in one word.
pub open spec fn packed_size(width: u32, height: u32) -> u64 {
    (width * 0x1_0000_0000 + height) as u64
}

pub fn pack_size(width: u32, height: u32) -> (r: u64)
    ensures
        r == packed_size(width, height),
{
    width as u64 * 0x1_0000_0000 + height as u64
}

/// What a slot that reads like this holds.
pub open spec fn slot_content(monitor: u64, size: u64, refresh_millihz: u32) -> Option<
    (u64, CommittedMode),
> {
    if monitor == 0 {
        None
    } else {
        Some(
            (
                monitor,
                CommittedMode {
                    width: (size / 0x1_0000_0000) as u32,
                    height: (size % 0x1_0000_0000) as u32,
                    refresh_millihz,
                },
            ),
        )
    }
}

/// Judge one attempt to read a slot from the versions seen before and after its
/// words.
pub fn judge_read(before: u32, monitor: u64, size: u64, refresh_millihz: u32, after: u32) -> (r: SlotRead)
    ensures
        r == (if before % 2 != 0 || after != before {
            SlotRead::Retry
        } else {
            match slot_content(monitor, size, refresh_millihz) {
                None => SlotRead::Empty,
                Some(c) => SlotRead::Found(c.0, c.1),
            }
        }),
{
    if before % 2 != 0 || after != before {
        SlotRead::Retry
    } else if monitor == 0 {
        SlotRead::Empty
    } else {
        SlotRead::Found(
            monitor,
            CommittedMode {
                width: (size / 0x1_0000_0000) as u32,
                height: (size % 0x1_0000_0000) as u32,
                refresh_millihz,
            },
        )
    }
}

/// One slot of the record.
#[derive(Clone, Copy, Debug)]
pub struct CommittedSlot {
    /// Odd while a write is going on.
    pub version: u32,
    /// The monitor; 0 is empty.
    pub monitor: u64,
    pub size: u64,
    pub refresh_millihz: u32,
}

impl View for CommittedSlot {
    type V = Option<(u64, CommittedMode)>;

    open spec fn view(&self) -> Option<(u64, CommittedMode)> {
        slot_content(self.monitor, self.size, self.refresh_millihz)
    }
}

impl CommittedSlot {
    /// No write is going on.
    pub open spec fn stable(&self) -> bool {
        self.version % 2 == 0
    }

    pub fn new() -> (r: Self)
        ensures
            r.stable(),
            r@ is None,
    {
        CommittedSlot { version: 0, monitor: 0, size: 0, refresh_millihz: 0 }
    }

    /// Put a monitor and its mode in the slot, or nothing when `monitor` is 0.
    pub fn publish(&mut self, monitor: u64, mode: CommittedMode)
        requires
            old(self).stable(),
        ensures
            final(self).stable(),
            final(self).version != old(self).version,
            final(self)@ == (if monitor == 0 {
                None
            } else {
                Some((monitor, mode))
            }),
    {
        let v: u32 = self.version;
        self.version = version_open(v);
        self.monitor = monitor;
        self.size = pack_size(mode.width, mode.height);
        self.refresh_millihz = mode.refresh_millihz;
        self.version = version_closed(v);
        proof {
            assert((self.size / 0x1_0000_0000) as u32 == mode.width);
            assert((self.size % 0x1_0000_0000) as u32 == mode.height);
        }
    }

    pub fn clear(&mut self)
        requires
            old(self).stable(),
        ensures
            final(self).stable(),
            final(self)@ is None,
    {
        self.publish(0, CommittedMode { width: 0, height: 0, refresh_millihz: 0 });
    }

    /// One bounded read. `None` is empty, or being written.
    pub fn read(&self) -> (r: Option<(u64, CommittedMode)>)
        ensures
            self.stable() ==> r == self@,
            !self.stable() ==> r is None,
    {
        let mut tries: u32 = 0;
        while tries < READ_RETRIES
            invariant
                tries > 0 ==> !self.stable(),
            decreases READ_RETRIES - tries,
        {
            let before: u32 = self.version;
            match judge_read(before, self.monitor, self.size, self.refresh_millihz, self.version) {
                SlotRead::Retry => {},
                SlotRead::Empty => return None,
                SlotRead::Found(monitor, mode) => return Some((monitor, mode)),
            }
            tries += 1;
        }
        None
    }
}

/// What the record says.
pub struct PathsModel {
    pub slots: Seq<Option<(u64, CommittedMode)>>,
    pub active: u32,
    pub generation: u64,
    pub state: u32,
}

/// A count that starts over past its largest value.
pub open spec fn bumped(generation: u64, by: int) -> u64 {
    ((generation + by) % 0x1_0000_0000_0000_0000) as u64
}

impl PathsModel {
    pub open spec fn held(self) -> bool {
        self.state == WRITING || self.state == WRITING + CONTENDED
    }

    pub open spec fn contended(self) -> bool {
        self.state == CONTENDED || self.state == WRITING + CONTENDED
    }

    /// Nothing is committed anywhere.
    pub open spec fn nothing_committed(self) -> bool {
        &&& self.active == 0
        &&& forall|i: int| 0 <= i < self.slots.len() ==> (#[trigger] self.slots[i]) is None
    }

    /// The record after somebody asked to write while it was held.
    pub open spec fn turned_away(self) -> PathsModel {
        PathsModel { state: 3, generation: bumped(self.generation, 1), ..self }
    }

    /// The record after somebody asked to write while it was not held.
    pub open spec fn taken(self) -> PathsModel {
        PathsModel {
            state: if self.contended() {
                3
            } else {
                WRITING
            },
            ..self
        }
    }

    /// The record after the holder handed it back. If somebody was turned away in
    /// the meantime, nothing is left of it.
    pub open spec fn handed_back(self) -> PathsModel {
        if self.contended() {
            PathsModel {
                slots: Seq::new(self.slots.len(), |i: int| None),
                active: 0,
                generation: bumped(self.generation, 2),
                state: FREE,
            }
        } else {
            PathsModel { generation: bumped(self.generation, 1), state: FREE, ..self }
        }
    }

    /// What the paths of one commit leave in `n` slots. Monitor 0 is no monitor.
    pub open spec fn recorded_slots(paths: Seq<(u64, CommittedMode)>, n: nat) -> Seq<
        Option<(u64, CommittedMode)>,
    > {
        Seq::new(
            n,
            |i: int|
                if i < paths.len() && paths[i].0 != 0 {
                    Some(paths[i])
                } else {
                    None
                },
        )
    }

    /// How many slots are in use.
    pub open spec fn used(slots: Seq<Option<(u64, CommittedMode)>>) -> nat {
        slots.filter(|s: Option<(u64, CommittedMode)>| s is Some).len()
    }

    /// The record after a commit.
    pub open spec fn committed(self, paths: Seq<(u64, CommittedMode)>, active_total: u32) -> PathsModel {
        if self.held() {
            self.turned_away()
        } else {
            PathsModel {
                slots: PathsModel::recorded_slots(paths, self.slots.len()),
                active: active_total,
                ..self.taken()
            }.handed_back()
        }
    }

    /// A record that nobody writes and whose slots read like this. Monitor 0 is none.
    pub open spec fn read_as(
        slots: Seq<Option<(u64, CommittedMode)>>,
        active: u32,
        generation: u64,
    ) -> PathsModel {
        PathsModel {
            slots: slots.map_values(
                |s: Option<(u64, CommittedMode)>|
                    match s {
                        Some(c) => if c.0 != 0 {
                            Some(c)
                        } else {
                            None
                        },
                        None => None,
                    },
            ),
            active,
            generation,
            state: FREE,
        }
    }

    /// How many paths of a commit were recorded.
    pub open spec fn recorded(self, paths: Seq<(u64, CommittedMode)>) -> nat {
        if self.held() || self.contended() {
            0
        } else {
            PathsModel::used(PathsModel::recorded_slots(paths, self.slots.len()))
        }
    }

    /// The slots without those of `monitor`.
    pub open spec fn slots_without(self, monitor: u64) -> Seq<Option<(u64, CommittedMode)>> {
        self.slots.map_values(
            |s: Option<(u64, CommittedMode)>|
                match s {
                    Some(c) => if c.0 == monitor {
                        None
                    } else {
                        s
                    },
                    None => None,
                },
        )
    }

    /// The record after a monitor departed.
    pub open spec fn forgotten(self, monitor: u64) -> PathsModel {
        if monitor == 0 {
            self
        } else if self.held() {
            self.turned_away()
        } else {
            PathsModel { slots: self.slots_without(monitor), ..self.taken() }.handed_back()
        }
    }

    /// The mode committed on `monitor`: that of its first slot.
    pub open spec fn mode_in(slots: Seq<Option<(u64, CommittedMode)>>, monitor: u64) -> Option<
        CommittedMode,
    >
        decreases slots.len(),
    {
        if slots.len() == 0 {
            None
        } else {
            match PathsModel::mode_in(slots.drop_last(), monitor) {
                Some(m) => Some(m),
                None => match slots.last() {
                    Some(c) => if c.0 == monitor {
                        Some(c.1)
                    } else {
                        None
                    },
                    None => None,
                },
            }
        }
    }

    pub open spec fn mode_on(self, monitor: u64) -> Option<CommittedMode> {
        if monitor == 0 {
            None
        } else {
            PathsModel::mode_in(self.slots, monitor)
        }
    }
}

/// The paths the operating system last committed.
pub struct CommittedPaths {
    pub slots: [CommittedSlot; 16],
    /// Active paths of the last commit, which may be more than were recorded.
    pub active: u32,
    /// Moves with every write; a remembered refusal counts only while it stands.
    pub generation: u64,
    /// `WRITING` and `CONTENDED`.
    pub state: u32,
}

impl View for CommittedPaths {
    type V = PathsModel;

    open spec fn view(&self) -> PathsModel {
        PathsModel {
            slots: self.slots@.map_values(|s: CommittedSlot| s@),
            active: self.active,
            generation: self.generation,
            state: self.state,
        }
    }
}

impl CommittedPaths {
    pub open spec fn wf(&self) -> bool {
        &&& self.state <= 3
        &&& forall|i: int| 0 <= i < 16 ==> (#[trigger] self.slots@[i]).stable()
    }

    pub fn new() -> (r: Self)
        ensures
            r.wf(),
            r@.nothing_committed(),
            r@.slots.len() == MAX_COMMITTED_PATHS,
            r@.generation == 0,
            r@.state == FREE,
    {
        CommittedPaths { slots: [CommittedSlot::new(); 16], active: 0, generation: 0, state: FREE }
    }

    /// Take over what was read from a record that other threads write, slot by slot: what
    /// each slot held, how many paths were active, and the token.
    pub fn adopt(
        &mut self,
        slots: &[Option<(u64, CommittedMode)>; 16],
        active: u32,
        generation: u64,
    )
        requires
            old(self).wf(),
        ensures
            final(self).wf(),
            final(self)@ == PathsModel::read_as(slots@, active, generation),
    {
        let ghost want = PathsModel::read_as(slots@, active, generation).slots;
        let mut i: usize = 0;
        while i < 16
            invariant
                i <= 16,
                self.wf(),
                want == PathsModel::read_as(slots@, active, generation).slots,
                forall|j: int| 0 <= j < i ==> (#[trigger] self.slots@[j])@ == want[j],
            decreases 16 - i,
        {
            let mut slot = self.slots[i];
            match slots[i] {
                Some((monitor, mode)) => slot.publish(monitor, mode),
                None => slot.clear(),
            }
            self.slots[i] = slot;
            i += 1;
        }
        self.active = active;
        self.generation = generation;
        self.state = FREE;
        assert(self@.slots =~= want);
    }

    /// Take the record for writing, or leave a mark and give up.
    pub fn begin_write(&mut self) -> (r: bool)
        requires
            old(self).wf(),
        ensures
            final(self).wf(),
            r == !old(self)@.held(),
            final(self)@ == (if r {
                old(self)@.taken()
            } else {
                old(self)@.turned_away()
            }),
            final(self).slots == old(self).slots,
    {
        let prev: u32 = self.state;
        if took_record(prev) {
            self.state =
            if prev == CONTENDED {
                3
            } else {
                WRITING
            };
            true
        } else {
            self.state = 3;
            self.generation = self.generation.wrapping_add(1);
            false
        }
    }

    /// What a write will be worth once the record is handed back: nothing if
    /// somebody has been turned away.
    pub fn end_write(&self, recorded: u32) -> (r: u32)
        requires
            self.wf(),
        ensures
            r == (if self@.contended() {
                0
            } else {
                recorded
            }),
    {
        if self.state >= CONTENDED {
            0
        } else {
            recorded
        }
    }

    /// Hand the record back, on behalf of anyone turned away.
    pub fn release(&mut self)
        requires
            old(self).wf(),
            old(self)@.held(),
        ensures
            final(self).wf(),
            final(self)@ == old(self)@.handed_back(),
    {
        if self.state == WRITING {
            self.generation = self.generation.wrapping_add(1);
        } else {
            let mut i: usize = 0;
            while i < 16
                invariant
                    i <= 16,
                    forall|j: int| 0 <= j < 16 ==> (#[trigger] self.slots@[j]).stable(),
                    forall|j: int| 0 <= j < i ==> (#[trigger] self.slots@[j])@ is None,
                    self.generation == old(self).generation,
                decreases 16 - i,
            {
                let mut slot = self.slots[i];
                slot.clear();
                self.slots[i] = slot;
                i += 1;
            }
            self.active = 0;
            self.generation = self.generation.wrapping_add(2);
            assert(self@.slots =~= old(self)@.handed_back().slots);
        }
        self.state = FREE;
    }

    /// Replace the whole record by the active paths of one commit. A monitor that is
    /// not among them has no committed mode. `active_total` is how many paths were
    /// active, recorded or not. Returns how many were recorded.
    pub fn apply(&mut self, paths: &[(u64, CommittedMode)], active_total: u32) -> (r: u32)
        requires
            old(self).wf(),
        ensures
            final(self).wf(),
            final(self)@ == old(self)@.committed(paths@, active_total),
            r == old(self)@.recorded(paths@),
    {
        if !self.begin_write() {
            return 0;
        }
        let ghost want = PathsModel::recorded_slots(paths@, 16);
        let ghost keep = |s: Option<(u64, CommittedMode)>| s is Some;
        let ghost begun = self@;
        let mut recorded: u32 = 0;
        let mut i: usize = 0;
        proof {
            reveal(Seq::filter);
            assert(want.take(0).filter(keep).len() == 0);
        }
        while i < 16
            invariant
                i <= 16,
                self.wf(),
                begun == (PathsModel { slots: begun.slots, ..self@ }),
                want == PathsModel::recorded_slots(paths@, 16),
                keep == (|s: Option<(u64, CommittedMode)>| s is Some),
                forall|j: int| 0 <= j < i ==> (#[trigger] self.slots@[j])@ == want[j],
                recorded == want.take(i as int).filter(keep).len(),
                recorded <= i,
            decreases 16 - i,
        {
            let mut slot = self.slots[i];
            proof {
                reveal(Seq::filter);
                assert(want.take(i + 1).drop_last() =~= want.take(i as int));
                assert(want.take(i + 1).last() == want[i as int]);
            }
            if i < paths.len() && paths[i].0 != 0 {
                slot.publish(paths[i].0, paths[i].1);
                recorded += 1;
            } else {
                slot.clear();
            }
            self.slots[i] = slot;
            i += 1;
        }
        self.active = active_total;
        proof {
            assert(want.take(16) =~= want);
            assert(self@.slots =~= want);
        }
        let r: u32 = self.end_write(recorded);
        self.release();
        r
    }

    /// Forget a monitor that departed. Its handle may be given to another one.
    pub fn forget(&mut self, monitor: u64)
        requires
            old(self).wf(),
        ensures
            final(self).wf(),
            final(self)@ == old(self)@.forgotten(monitor),
    {
        if monitor == 0 {
            return;
        }
        if !self.begin_write() {
            return;
        }
        let ghost begun = *self;
        let mut i: usize = 0;
        while i < 16
            invariant
                i <= 16,
                self.wf(),
                begun@ == (PathsModel { slots: begun@.slots, ..self@ }),
                forall|j: int| 0 <= j < i ==> (#[trigger] self.slots@[j])@ == begun@.slots_without(monitor)[j],
                forall|j: int| i <= j < 16 ==> #[trigger] self.slots@[j] == begun.slots@[j],
            decreases 16 - i,
        {
            let mut slot = self.slots[i];
            if let Some((m, _)) = slot.read() {
                if m == monitor {
                    slot.clear();
                }
            }
            self.slots[i] = slot;
            i += 1;
        }
        assert(self@.slots =~= begun@.slots_without(monitor));
        assert(begun@.slots =~= old(self)@.slots);
        self.release();
    }

    /// The mode committed on `monitor`, if any.
    pub fn get(&self, monitor: u64) -> (r: Option<CommittedMode>)
        requires
            self.wf(),
        ensures
            r == self@.mode_on(monitor),
    {
        if monitor == 0 {
            return None;
        }
        let mut i: usize = 0;
        let ghost slots = self@.slots;
        assert(slots.take(0) =~= Seq::<Option<(u64, CommittedMode)>>::empty());
        while i < 16
            invariant
                i <= 16,
                self.wf(),
                slots == self@.slots,
                slots.len() == 16,
                PathsModel::mode_in(slots.take(i as int), monitor) is None,
                monitor != 0,
            decreases 16 - i,
        {
            assert(slots.take(i + 1).drop_last() =~= slots.take(i as int));
            assert(slots.take(i + 1).last() == self.slots@[i as int]@);
            if let Some((m, mode)) = self.slots[i].read() {
                if m == monitor {
                    proof {
                        lemma_first_wins(slots, i + 1, monitor);
                    }
                    return Some(mode);
                }
            }
            i += 1;
        }
        assert(slots.take(16) =~= slots);
        None
    }

    /// The mode committed on `monitor`, and the token that says how long the answer
    /// is good for.
    pub fn get_with_token(&self, monitor: u64) -> (r: (Option<CommittedMode>, u64))
        requires
            self.wf(),
        ensures
            r == (self@.mode_on(monitor), self@.generation),
    {
        let token: u64 = self.generation();
        (self.get(monitor), token)
    }

    /// Active paths of the last commit.
    pub fn active(&self) -> (r: u32)
        ensures
            r == self@.active,
    {
        self.active
    }

    /// The token of what is committed now.
    pub fn generation(&self) -> (r: u64)
        ensures
            r == self@.generation,
    {
        self.generation
    }
}

impl Default for CommittedPaths {
    fn default() -> (r: Self)
        ensures
            r.wf(),
            r@.nothing_committed(),
            r@.generation == 0,
            r@.state == FREE,
    {
        CommittedPaths::new()
    }
}

proof fn lemma_first_wins(slots: Seq<Option<(u64, CommittedMode)>>, n: int, monitor: u64)
    requires
        0 <= n <= slots.len(),
        PathsModel::mode_in(slots.take(n), monitor) is Some,
    ensures
        PathsModel::mode_in(slots, monitor) == PathsModel::mode_in(slots.take(n), monitor),
    decreases slots.len(),
{
    if n < slots.len() {
        assert(slots.drop_last().take(n) =~= slots.take(n));
        lemma_first_wins(slots.drop_last(), n, monitor);
    } else {
        assert(slots.take(n) =~= slots);
    }
}

/// A commit replaces the whole record: a monitor among the first paths has the mode
/// it came with first, and a monitor that is not among them has none.
pub proof fn law_commit_replaces_record(
    p: PathsModel,
    paths: Seq<(u64, CommittedMode)>,
    active_total: u32,
    monitor: u64,
)
    requires
        p.state == FREE,
        p.slots.len() == MAX_COMMITTED_PATHS,
        monitor != 0,
    ensures
        ({
            let n = p.committed(paths, active_total);
            &&& n.active == active_total
            &&& n.state == FREE
            &&& forall|i: int|
                0 <= i < paths.len() && i < MAX_COMMITTED_PATHS && (#[trigger] paths[i]).0 == monitor
                    && (forall|j: int| 0 <= j < i ==> (#[trigger] paths[j]).0 != monitor)
                    ==> n.mode_on(monitor) == Some(paths[i].1)
            &&& (forall|i: int|
                0 <= i < paths.len() && i < MAX_COMMITTED_PATHS ==> (#[trigger] paths[i]).0
                    != monitor) ==> n.mode_on(monitor) is None
        }),
{
    let slots = PathsModel::recorded_slots(paths, MAX_COMMITTED_PATHS as nat);
    assert(p.committed(paths, active_total).slots =~= slots);
    lemma_mode_in(slots, monitor);
    assert forall|i: int|
        0 <= i < paths.len() && i < MAX_COMMITTED_PATHS && (#[trigger] paths[i]).0 == monitor && (
        forall|j: int| 0 <= j < i ==> (#[trigger] paths[j]).0 != monitor) implies PathsModel::mode_in(
        slots,
        monitor,
    ) == Some(paths[i].1) by {
        assert(slots[i] == Some(paths[i]));
        let front = slots.take(i);
        lemma_mode_in(front, monitor);
        assert forall|k: int| 0 <= k < front.len() implies !(#[trigger] front[k] matches Some(c)
            && c.0 == monitor) by {
            if front[k] is Some {
                assert(front[k] == Some(paths[k]));
            }
        }
        assert(slots.take(i + 1).drop_last() =~= front);
        assert(slots.take(i + 1).last() == slots[i]);
        lemma_first_wins(slots, i + 1, monitor);
    }
}

/// A mode found for a monitor is in one of its slots, and is found if there is one.
pub proof fn lemma_mode_in(slots: Seq<Option<(u64, CommittedMode)>>, monitor: u64)
    ensures
        PathsModel::mode_in(slots, monitor) is Some <==> exists|i: int|
            0 <= i < slots.len() && (#[trigger] slots[i] matches Some(c) && c.0 == monitor),
        PathsModel::mode_in(slots, monitor) is Some ==> exists|i: int|
            0 <= i < slots.len() && (#[trigger] slots[i] matches Some(c) && c.0 == monitor && Some(c.1)
                == PathsModel::mode_in(slots, monitor)),
    decreases slots.len(),
{
    if slots.len() > 0 {
        let rest = slots.drop_last();
        lemma_mode_in(rest, monitor);
        assert forall|i: int| 0 <= i < rest.len() implies #[trigger] slots[i] == rest[i] by {}
        if PathsModel::mode_in(rest, monitor) is Some {
            let i = choose|i: int|
                0 <= i < rest.len() && (#[trigger] rest[i] matches Some(c) && c.0 == monitor
                    && Some(c.1) == PathsModel::mode_in(rest, monitor));
            assert(slots[i] == rest[i]);
        } else if PathsModel::mode_in(slots, monitor) is Some {
            assert(slots[slots.len() - 1] == slots.last());
        }
    }
}

/// Whoever writes, the token moves: a refusal that was remembered before is no
/// longer evidence of anything.
pub proof fn law_every_write_moves_the_token(
    p: PathsModel,
    paths: Seq<(u64, CommittedMode)>,
    active_total: u32,
    monitor: u64,
)
    requires
        p.state <= 3,
        monitor != 0,
    ensures
        p.committed(paths, active_total).generation != p.generation,
        p.forgotten(monitor).generation != p.generation,
{
}

/// A commit that arrives while the record is held is dropped, and when the holder
/// hands the record back nothing is left of it. The next commit is recorded whole.
pub proof fn law_lost_commit_clears_record(
    p: PathsModel,
    lost: Seq<(u64, CommittedMode)>,
    lost_total: u32,
    next: Seq<(u64, CommittedMode)>,
    next_total: u32,
)
    requires
        p.state == FREE,
    ensures
        ({
            let held = p.taken();
            let after = held.committed(lost, lost_total);
            let back = after.handed_back();
            &&& held.recorded(lost) == 0
            &&& after.slots == p.slots
            &&& back.nothing_committed()
            &&& back.state == FREE
            &&& back.committed(next, next_total).slots == PathsModel::recorded_slots(
                next,
                p.slots.len(),
            )
            &&& back.committed(next, next_total).active == next_total
        }),
{
}

/// Forgetting a monitor leaves every other one alone.
pub proof fn law_forget_spares_the_others(p: PathsModel, monitor: u64, other: u64)
    requires
        p.state == FREE,
        monitor != 0,
        other != monitor,
    ensures
        p.forgotten(monitor).mode_on(monitor) is None,
        p.forgotten(monitor).mode_on(other) == p.mode_on(other),
        p.forgotten(monitor).active == p.active,
{
    let kept = p.slots_without(monitor);
    assert(p.forgotten(monitor).slots =~= kept);
    lemma_mode_in(kept, monitor);
    lemma_other_kept(p.slots, kept, monitor, other);
}

proof fn lemma_other_kept(
    slots: Seq<Option<(u64, CommittedMode)>>,
    kept: Seq<Option<(u64, CommittedMode)>>,
    monitor: u64,
    other: u64,
)
    requires
        slots.len() == kept.len(),
        other != monitor,
        forall|i: int|
            0 <= i < slots.len() ==> #[trigger] kept[i] == (match slots[i] {
                Some(c) => if c.0 == monitor {
                    None
                } else {
                    slots[i]
                },
                None => None,
            }),
    ensures
        PathsModel::mode_in(kept, other) == PathsModel::mode_in(slots, other),
    decreases slots.len(),
{
    if slots.len() > 0 {
        lemma_other_kept(slots.drop_last(), kept.drop_last(), monitor, other);
        assert(kept.last() == kept[kept.len() - 1]);
    }
}

/// The committed mode of a signal: its size, and its rate in whole millihertz, rounded
/// down. There is none without a size, without a denominator, below one millihertz, or
/// where the rate does not fit.
pub proof fn law_committed_mode_of_a_signal(width: u32, height: u32, vsync_num: u64, vsync_den: u64)
    ensures
        ({
            let r = CommittedMode::of_signal(width, height, vsync_num, vsync_den);
            let scaled = vsync_num * 1000;
            &&& r is Some <==> width > 0 && height > 0 && vsync_den > 0 && scaled <= u64::MAX
                && vsync_den <= scaled && scaled < 0x1_0000_0000 * vsync_den
            &&& r matches Some(c) ==> {
                &&& c.width == width
                &&& c.height == height
                &&& c.refresh_millihz * vsync_den <= scaled < (c.refresh_millihz + 1) * vsync_den
            }
        }),
{
    let scaled = vsync_num as int * 1000;
    let d = vsync_den as int;
    if d > 0 {
        let q = scaled / d;
        vstd::arithmetic::div_mod::lemma_fundamental_div_mod(scaled, d);
        let m = scaled % d;
        assert(0 <= m < d);
        assert(q * d <= scaled < (q + 1) * d) by (nonlinear_arith)
            requires
                scaled == d * q + m,
                0 <= m < d,
        ;
        assert(q == 0 <==> scaled < d) by (nonlinear_arith)
            requires
                q * d <= scaled < (q + 1) * d,
                0 <= scaled,
                d > 0,
        ;
        assert(q <= 0xFFFF_FFFF <==> scaled < 0x1_0000_0000 * d) by (nonlinear_arith)
            requires
                q * d <= scaled < (q + 1) * d,
                d > 0,
        ;
        assert(q >= 0) by (nonlinear_arith)
            requires
                scaled < (q + 1) * d,
                0 <= scaled,
                d > 0,
        ;
    }
}

/// What is written into a slot is what is read out of it.
pub proof fn law_slot_words_read_back(monitor: u64, mode: CommittedMode)
    requires
        monitor != 0,
    ensures
        slot_content(monitor, packed_size(mode.width, mode.height), mode.refresh_millihz) == Some(
            (monitor, mode),
        ),
        slot_content(0, packed_size(mode.width, mode.height), mode.refresh_millihz) is None,
{
}

/// A commit counts, in numbers: into a record nobody writes it goes whole, up to sixteen
/// paths, each in the slot of its place; one that finds the record held only leaves its
/// mark, and one that finds a mark leaves nothing. The token moves by one, by one, and by
/// two.
pub proof fn law_commit_values(p: PathsModel, paths: Seq<(u64, CommittedMode)>, active_total: u32, i: int)
    requires
        p.state <= 3,
        p.slots.len() == 16,
        0 <= i < 16,
        p.generation < u64::MAX - 1,
    ensures
        ({
            let n = p.committed(paths, active_total);
            &&& n.slots.len() == 16
            &&& p.state == 0 ==> {
                &&& n.state == 0
                &&& n.active == active_total
                &&& n.generation == p.generation + 1
                &&& n.slots[i] == (if i < paths.len() && paths[i].0 != 0 {
                    Some(paths[i])
                } else {
                    None
                })
            }
            &&& p.state == 1 || p.state == 3 ==> {
                &&& n.state == 3
                &&& n.slots == p.slots
                &&& n.active == p.active
                &&& n.generation == p.generation + 1
                &&& p.recorded(paths) == 0
            }
            &&& p.state == 2 ==> {
                &&& n.state == 0
                &&& n.active == 0
                &&& n.slots[i] is None
                &&& n.generation == p.generation + 2
                &&& p.recorded(paths) == 0
            }
        }),
{
}

/// Forgetting empties the slots of the monitor and no others, and moves the token; no
/// monitor is nothing to forget.
pub proof fn law_forget_values(p: PathsModel, monitor: u64, i: int)
    requires
        p.state == 0,
        0 <= i < p.slots.len(),
        p.generation < u64::MAX,
    ensures
        ({
            let n = p.forgotten(monitor);
            &&& monitor == 0 ==> n == p
            &&& monitor != 0 ==> {
                &&& n.generation == p.generation + 1
                &&& n.state == 0
                &&& n.active == p.active
                &&& n.slots.len() == p.slots.len()
                &&& n.slots[i] == (if p.slots[i] is Some && (p.slots[i]->0).0 == monitor {
                    None
                } else {
                    p.slots[i]
                })
            }
        }),
{
}

/// The mode on a monitor is that of the first slot that names the monitor.
pub proof fn law_mode_on_is_the_first(p: PathsModel, monitor: u64, i: int)
    requires
        0 <= i < p.slots.len(),
        monitor != 0,
        p.slots[i] is Some,
        (p.slots[i]->0).0 == monitor,
        forall|j: int|
            0 <= j < i ==> !(#[trigger] p.slots[j] is Some && (p.slots[j]->0).0 == monitor),
    ensures
        p.mode_on(monitor) == Some((p.slots[i]->0).1),
        p.mode_on(0) is None,
{
    let front = p.slots.take(i + 1);
    lemma_mode_in(front.drop_last(), monitor);
    assert(front.last() == p.slots[i]);
    assert forall|j: int| 0 <= j < i implies #[trigger] front.drop_last()[j] == p.slots[j] by {}
    lemma_first_wins(p.slots, i + 1, monitor);
}

/// The words of the record in numbers, and its bounds.
pub proof fn law_record_values()
    ensures
        FREE == 0 && WRITING == 1 && CONTENDED == 2,
        MAX_COMMITTED_PATHS == 16 && READ_RETRIES == 4,
{
}

/// When the record is held or marked, by its word: 0 is free, 1 held, 2 marked and 3 both.
pub proof fn law_record_words(p: PathsModel)
    requires
        p.state <= 3,
    ensures
        p.held() <==> p.state % 2 == 1,
        p.contended() <==> p.state >= 2,
        p.nothing_committed() ==> p.active == 0 && forall|i: int|
            0 <= i < p.slots.len() ==> (#[trigger] p.slots[i]) is None,
{
}

/// A committed mode is one of the modes of a list where width, height and rate are the
/// same; a mode's other fields do not matter.
pub proof fn law_committed_mode_is(c: CommittedMode, m: Mode)
    ensures
        c.matches_mode(m) <==> c.width == m.width && c.height == m.height && c.refresh_millihz
            == m.refresh_millihz,
{
}

/// A slot can be read while its version is even.
pub proof fn law_slot_versions(s: CommittedSlot, k: u32)
    ensures
        s.version == 2 * k ==> s.stable(),
        s.version == 2 * k + 1 ==> !s.stable(),
{
}

/// Slots in use are counted one by one.
pub proof fn law_used_slots(
    slots: Seq<Option<(u64, CommittedMode)>>,
    next: Option<(u64, CommittedMode)>,
)
    ensures
        PathsModel::used(Seq::empty()) == 0,
        next is None ==> PathsModel::used(slots.push(next)) == PathsModel::used(slots),
        next is Some ==> PathsModel::used(slots.push(next)) == PathsModel::used(slots) + 1,
{
    reveal(Seq::filter);
    assert(slots.push(next).drop_last() =~= slots);
}

/// A record as it was read keeps every slot of a real monitor and drops those of monitor 0;
/// nobody holds it.
pub proof fn law_read_record_values(
    slots: Seq<Option<(u64, CommittedMode)>>,
    active: u32,
    generation: u64,
    i: int,
)
    requires
        0 <= i < slots.len(),
    ensures
        ({
            let p = PathsModel::read_as(slots, active, generation);
            &&& p.slots.len() == slots.len()
            &&& p.slots[i] is Some <==> slots[i] is Some && (slots[i]->0).0 != 0
            &&& p.slots[i] is Some ==> p.slots[i] == slots[i]
            &&& p.active == active && p.generation == generation && p.state == 0
        }),
{
}

} // verus!
