//! How the record of committed modes is shared, step by step.
//!
//! Every atomic access is one step, and steps of different threads interleave
//! freely. The functions decide what a thread does with the word it got back; the
//! laws say what no interleaving can do.
use vstd::prelude::*;

use crate::modepush::committed::{slot_content, CONTENDED, FREE, WRITING};

verus! {

/// Bounded attempts to take the record for writing.
pub const ACQUIRE_ATTEMPTS: u32 = 4;

/// Bounded attempts to hand it back.
pub const RELEASE_ATTEMPTS: u32 = 4;

/// Whether setting `WRITING` in the shared word, which held `prev`, took the record.
pub fn took_record(prev: u32) -> (r: bool)
    requires
        prev <= 3,
    ensures
        r == (prev == FREE || prev == CONTENDED),
{
    prev == FREE || prev == CONTENDED
}

/// The version while a slot is being written.
pub fn version_open(v: u32) -> (r: u32)
    ensures
        v % 2 == 0 ==> r % 2 == 1,
        r == (v + 1) % 0x1_0000_0000,
{
    v.wrapping_add(1)
}

/// The version once a slot, which was at `v`, has been written.
pub fn version_closed(v: u32) -> (r: u32)
    ensures
        r % 2 == v % 2,
        r == (v + 2) % 0x1_0000_0000,
{
    v.wrapping_add(2)
}

/// One slot as seen between two steps. `steps` counts the version steps ever taken;
/// the stored version is that count in 32 bits.
pub struct SlotMoment {
    pub steps: nat,
    pub monitor: u64,
    pub size: u64,
    pub refresh_millihz: u32,
}

impl SlotMoment {
    pub open spec fn version(self) -> u32 {
        (self.steps % 0x1_0000_0000) as u32
    }

    pub open spec fn same_words(self, other: SlotMoment) -> bool {
        self.monitor == other.monitor && self.size == other.size && self.refresh_millihz
            == other.refresh_millihz
    }

    /// One step of the writer, or none: the words change only while the version is
    /// odd, and the version changes only by itself.
    pub open spec fn leads_to(self, next: SlotMoment) -> bool {
        if next.steps == self.steps {
            self.steps % 2 == 0 ==> self.same_words(next)
        } else {
            next.steps == self.steps + 1 && self.same_words(next)
        }
    }
}

/// A history of one slot.
pub open spec fn slot_history(h: Seq<SlotMoment>) -> bool {
    forall|i: int| 0 <= i < h.len() - 1 ==> (#[trigger] h[i]).leads_to(h[i + 1])
}

proof fn lemma_steps_rise(h: Seq<SlotMoment>, a: int, b: int)
    requires
        slot_history(h),
        0 <= a <= b < h.len(),
    ensures
        h[a].steps <= h[b].steps,
        h[a].steps == h[b].steps && h[a].steps % 2 == 0 ==> h[a].same_words(h[b]),
    decreases b - a,
{
    if a < b {
        lemma_steps_rise(h, a, b - 1);
        assert(h[b - 1].leads_to(h[b]));
    }
}

/// A read that saw the same even version before and after is a reading of the slot
/// as it stood at one moment, however the three words were loaded in between. (Only
/// a read that is overtaken by 2^31 whole writes could be deceived.)
pub proof fn law_accepted_read_is_untorn(h: Seq<SlotMoment>, t0: int, t1: int, t2: int, t3: int, t4: int)
    requires
        slot_history(h),
        0 <= t0 <= t1 <= t2 <= t3 <= t4 < h.len(),
        h[t0].version() % 2 == 0,
        h[t0].version() == h[t4].version(),
        h[t4].steps - h[t0].steps < 0x1_0000_0000,
    ensures
        slot_content(h[t1].monitor, h[t2].size, h[t3].refresh_millihz) == slot_content(
            h[t0].monitor,
            h[t0].size,
            h[t0].refresh_millihz,
        ),
{
    lemma_steps_rise(h, t0, t1);
    lemma_steps_rise(h, t1, t2);
    lemma_steps_rise(h, t2, t3);
    lemma_steps_rise(h, t3, t4);
    lemma_steps_rise(h, t0, t4);
    lemma_steps_rise(h, t0, t2);
    lemma_steps_rise(h, t0, t3);
    let (a, b) = (h[t0].steps as int, h[t4].steps as int);
    assert(a == b) by {
        vstd::arithmetic::div_mod::lemma_fundamental_div_mod(a, 0x1_0000_0000);
        vstd::arithmetic::div_mod::lemma_fundamental_div_mod(b, 0x1_0000_0000);
    }
    assert(a % 2 == 0);
}

/// The shared word and what is known of the record between two steps.
pub struct TokenModel {
    pub state: u32,
    /// The thread that holds the record.
    pub holder: Option<int>,
    /// The holder is done writing and is handing the record back.
    pub releasing: bool,
    /// The holder has taken the mark down and is about to clear.
    pub clearing: bool,
    /// Somebody was turned away since the holder took the record.
    pub owed: bool,
    /// The record is clear.
    pub empty: bool,
}

/// One atomic access of one thread.
pub enum TokenStep {
    /// Set `WRITING`.
    Acquire,
    /// Turn `WRITING` into `WRITING` and `CONTENDED`, if it is that.
    Mark,
    /// Set `CONTENDED`, out of attempts.
    ForceMark,
    /// Write a slot.
    Write,
    /// Stop writing.
    Finish,
    /// Turn `WRITING` into `FREE`, if it is that.
    Release,
    /// Take `CONTENDED` down, keeping the record.
    TakeMarkDown,
    /// Clear every slot.
    Clear,
    /// Hand back unconditionally, out of attempts and with the record clear.
    ForceRelease,
}

impl TokenModel {
    pub open spec fn initial() -> TokenModel {
        TokenModel {
            state: FREE,
            holder: None,
            releasing: false,
            clearing: false,
            owed: false,
            empty: true,
        }
    }

    pub open spec fn held_by(self, who: int) -> bool {
        self.holder == Some(who)
    }

    /// Whether `who` may take this step now.
    pub open spec fn enabled(self, who: int, step: TokenStep) -> bool {
        match step {
            TokenStep::Acquire => !self.held_by(who),
            TokenStep::Mark => !self.held_by(who),
            TokenStep::ForceMark => !self.held_by(who),
            TokenStep::Write => self.held_by(who) && !self.releasing,
            TokenStep::Finish => self.held_by(who) && !self.releasing,
            TokenStep::Release => self.held_by(who) && self.releasing && !self.clearing,
            TokenStep::TakeMarkDown => self.held_by(who) && self.releasing && !self.clearing
                && self.state == WRITING + CONTENDED,
            TokenStep::Clear => self.held_by(who) && self.clearing,
            TokenStep::ForceRelease => self.held_by(who) && self.releasing && !self.clearing
                && self.empty,
        }
    }

    /// What a step makes of the word and the record.
    pub open spec fn after(self, who: int, step: TokenStep) -> TokenModel {
        match step {
            TokenStep::Acquire => if self.state == FREE || self.state == CONTENDED {
                TokenModel {
                    state: (self.state + WRITING) as u32,
                    holder: Some(who),
                    releasing: false,
                    clearing: false,
                    owed: self.state == CONTENDED,
                    ..self
                }
            } else {
                self
            },
            TokenStep::Mark => if self.state == WRITING {
                TokenModel { state: 3, owed: true, ..self }
            } else {
                self
            },
            TokenStep::ForceMark => TokenModel {
                state: if self.state == FREE || self.state == CONTENDED {
                    CONTENDED
                } else {
                    3
                },
                owed: self.holder is Some,
                ..self
            },
            TokenStep::Write => TokenModel { empty: false, ..self },
            TokenStep::Finish => TokenModel { releasing: true, ..self },
            TokenStep::Release => if self.state == WRITING {
                TokenModel { state: FREE, holder: None, releasing: false, ..self }
            } else {
                self
            },
            TokenStep::TakeMarkDown => TokenModel { state: WRITING, clearing: true, ..self },
            TokenStep::Clear => TokenModel { clearing: false, empty: true, ..self },
            TokenStep::ForceRelease => TokenModel {
                state: FREE,
                holder: None,
                releasing: false,
                ..self
            },
        }
    }

    /// The word tells whether the record is held, and whoever was turned away is
    /// either still marked, being honoured, or has been honoured by a clear record.
    pub open spec fn inv(self) -> bool {
        &&& self.state <= 3
        &&& self.holder is Some <==> self.state == WRITING || self.state == WRITING + CONTENDED
        &&& self.clearing ==> self.releasing
        &&& self.releasing ==> self.holder is Some
        &&& self.holder is Some && !self.releasing && self.owed ==> self.state == WRITING + CONTENDED
        &&& self.releasing && self.owed ==> self.state == WRITING + CONTENDED || self.clearing
            || self.empty
    }
}

/// The invariant holds at the start and survives every step of every thread.
pub proof fn law_token_invariant(t: TokenModel, who: int, step: TokenStep)
    ensures
        TokenModel::initial().inv(),
        t.inv() && t.enabled(who, step) ==> t.after(who, step).inv(),
{
}

/// At most one thread holds the record: while one does, nobody else's step takes it
/// or hands it back.
pub proof fn law_one_writer(t: TokenModel, holder: int, other: int, step: TokenStep)
    requires
        t.inv(),
        t.held_by(holder),
        other != holder,
        t.enabled(other, step),
    ensures
        t.after(other, step).held_by(holder),
        t.after(other, step).empty == t.empty,
{
}

/// When the record is handed back, nobody was turned away since it was taken, or the
/// record is clear: a lost write never leaves a stale record standing.
pub proof fn law_release_honours_losers(t: TokenModel, who: int, step: TokenStep)
    requires
        t.inv(),
        t.held_by(who),
        t.enabled(who, step),
        t.after(who, step).holder is None,
    ensures
        !t.owed || t.after(who, step).empty,
        t.after(who, step).state == FREE,
{
}

/// How often the word is tried before a mark is forced.
pub proof fn law_attempts_values()
    ensures
        ACQUIRE_ATTEMPTS == 4 && RELEASE_ATTEMPTS == 4,
{
}

} // verus!
