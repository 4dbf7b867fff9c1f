//! The decisions of the tool that takes a display in and out of exclusive fullscreen
//! and watches whether its frames keep coming.
use vstd::prelude::*;

use crate::proto::create_flags;
use crate::proto::err;
use crate::proto::names::ascii_units;
use crate::proto::{CreateMonitorRequest, ModeSpec, LEASE_TIMEOUT_USE_DEFAULT};

verus! {

/// Round trips when nothing else is asked for.
pub const DEFAULT_ITERATIONS: u32 = 50;

/// Without progress for longer than this, the run is wedged.
pub const WEDGE_TIMEOUT_MS: u64 = 15000;

/// Published frames that are not delivered for longer than this are a stall.
pub const DELIVERY_STALL_MS: u64 = 5000;

/// The lease is renewed when the last renewal is older than this.
pub const PING_EVERY_MS: u64 = 1000;

/// The number of round trips between two reports.
pub const REPORT_EVERY: u32 = 10;

/// The size and rate of the display.
pub const STRESS_WIDTH: u32 = 1920;

pub const STRESS_HEIGHT: u32 = 1080;

pub const STRESS_REFRESH_MILLIHZ: u32 = 60000;

/// One argument of the command line.
#[derive(Clone, Copy, Debug, PartialEq, Eq, Structural)]
pub enum Arg {
    /// `--iterations`.
    Iterations,
    /// A decimal number that fits.
    Number(u32),
    /// Anything else.
    Other,
}

/// What the command line asks for.
#[derive(Clone, Copy, Debug, PartialEq, Eq, Structural)]
pub enum Options {
    Run { iterations: u32 },
    /// `--iterations` without a number after it.
    NeedsNumber,
    /// The argument at this index is unknown.
    Unknown(usize),
}

/// The options from argument `i` on, `iterations` being asked for so far. A number
/// counts only right behind `--iterations`; the last one wins.
pub open spec fn options_from(args: Seq<Arg>, i: int, iterations: u32) -> Options
    decreases args.len() - i,
{
    if i < 0 || i >= args.len() {
        Options::Run { iterations }
    } else if args[i] is Iterations {
        if i + 1 < args.len() && args[i + 1] is Number {
            options_from(args, i + 2, args[i + 1]->Number_0)
        } else {
            Options::NeedsNumber
        }
    } else {
        Options::Unknown(i as usize)
    }
}

/// Read the command line.
pub fn parse_args(args: &[Arg]) -> (r: Options)
    ensures
        r == options_from(args@, 0, DEFAULT_ITERATIONS),
{
    let mut iterations: u32 = DEFAULT_ITERATIONS;
    let mut i: usize = 0;
    while i < args.len()
        invariant
            i <= args@.len(),
            options_from(args@, 0, DEFAULT_ITERATIONS) == options_from(args@, i as int, iterations),
        decreases args@.len() - i,
    {
        match args[i] {
            Arg::Iterations => {
                if i + 1 >= args.len() {
                    return Options::NeedsNumber;
                }
                match args[i + 1] {
                    Arg::Number(n) => {
                        iterations = n;
                    },
                    _ => {
                        return Options::NeedsNumber;
                    },
                }
                i += 2;
            },
            _ => {
                return Options::Unknown(i);
            },
        }
    }
    Options::Run { iterations }
}

/// A session id out of the clock and the process: the process in the upper sixteen
/// bits, so that runs in the same millisecond differ. Without a clock, 1 stands for it.
pub fn session_id(unix_ms: Option<u64>, pid: u32) -> (r: u64)
    ensures
        r == (match unix_ms {
            Some(ms) => ms,
            None => 1u64,
        }) | ((pid as u64) << 48),
        ({
            let ms = match unix_ms {
                Some(ms) => ms,
                None => 1u64,
            };
            ms < 0x1_0000_0000_0000 ==> r == (pid % 0x1_0000) * 0x1_0000_0000_0000 + ms
        }),
{
    let ms: u64 = match unix_ms {
        Some(ms) => ms,
        None => 1,
    };
    let r: u64 = ms | ((pid as u64) << 48);
    assert(ms < 0x1_0000_0000_0000 ==> r == (pid as u64 % 0x1_0000) * 0x1_0000_0000_0000 + ms)
        by (bit_vector)
        requires
            r == ms | ((pid as u64) << 48),
    ;
    r
}

/// The name of the display.
pub open spec fn stress_name() -> Seq<u16> {
    ascii_units("LuminalVGD AltTab"@)
}

/// The request for the display of a run: one mode, and an identity that is thrown away.
pub fn stress_request(session_id: u64) -> (r: CreateMonitorRequest)
    ensures
        r.session_id == session_id,
        r.display_id == 0,
        r.adapter_luid == 0,
        r.lease_timeout_ms == LEASE_TIMEOUT_USE_DEFAULT,
        r.bit_depth == 8,
        r.hdr == 0,
        r.edid_serial == 0,
        r.flags == create_flags::EPHEMERAL_IDENTITY,
        r.mode_count == 1,
        r.modes@[0] == (ModeSpec {
            width: STRESS_WIDTH,
            height: STRESS_HEIGHT,
            refresh_millihz: STRESS_REFRESH_MILLIHZ,
        }),
        forall|i: int|
            1 <= i < 4 ==> #[trigger] r.modes@[i] == (ModeSpec {
                width: 0,
                height: 0,
                refresh_millihz: 0,
            }),
        r.physical_width_mm == 0,
        r.physical_height_mm == 0,
        stress_name().len() == 17,
        forall|i: int|
            0 <= i < 32 ==> #[trigger] r.friendly_name@[i] == (if i < 17 {
                stress_name()[i]
            } else {
                0
            }),
        r.max_nits == 0,
        r.reserved0 == 0,
{
    let text = "LuminalVGD AltTab";
    proof {
        reveal_strlit("LuminalVGD AltTab");
    }
    let n: usize = text.unicode_len();
    let mut friendly_name: [u16; 32] = [0; 32];
    let mut i: usize = 0;
    while i < n
        invariant
            i <= n,
            n == 17,
            text@ == "LuminalVGD AltTab"@,
            text@.len() == n,
            stress_name().len() == n,
            forall|j: int|
                0 <= j < 32 ==> #[trigger] friendly_name@[j] == (if j < i {
                    stress_name()[j]
                } else {
                    0
                }),
        decreases n - i,
    {
        friendly_name[i] = text.get_char(i) as u16;
        i += 1;
    }
    let none = ModeSpec { width: 0, height: 0, refresh_millihz: 0 };
    let mode = ModeSpec {
        width: STRESS_WIDTH,
        height: STRESS_HEIGHT,
        refresh_millihz: STRESS_REFRESH_MILLIHZ,
    };
    CreateMonitorRequest {
        session_id,
        display_id: 0,
        adapter_luid: 0,
        lease_timeout_ms: LEASE_TIMEOUT_USE_DEFAULT,
        bit_depth: 8,
        hdr: 0,
        edid_serial: 0,
        flags: create_flags::EPHEMERAL_IDENTITY,
        mode_count: 1,
        modes: [mode, none, none, none],
        physical_width_mm: 0,
        physical_height_mm: 0,
        friendly_name,
        max_nits: 0,
        reserved0: 0,
    }
}

/// An output by its device name, NUL-padded UTF-16.
pub type OutputName = [u16; 32];

/// Two outputs have the same name.
pub fn same_output(a: &OutputName, b: &OutputName) -> (r: bool)
    ensures
        r == (a@ == b@),
{
    let mut i: usize = 0;
    while i < 32
        invariant
            i <= 32,
            forall|j: int| 0 <= j < i ==> a@[j] == b@[j],
        decreases 32 - i,
    {
        if a[i] != b[i] {
            return false;
        }
        i += 1;
    }
    assert(a@ =~= b@);
    true
}

/// An output that was not there before.
pub open spec fn is_new(before: Seq<OutputName>, now: Seq<OutputName>, i: int) -> bool {
    0 <= i < now.len() && forall|j: int|
        0 <= j < before.len() ==> (#[trigger] before[j])@ != now[i]@
}

/// The first output that was not there before the display was created.
pub fn new_output(before: &[OutputName], now: &[OutputName]) -> (r: Option<usize>)
    ensures
        match r {
            Some(i) => is_new(before@, now@, i as int) && forall|k: int|
                0 <= k < i ==> !#[trigger] is_new(before@, now@, k),
            None => forall|k: int| !#[trigger] is_new(before@, now@, k),
        },
{
    let mut i: usize = 0;
    while i < now.len()
        invariant
            i <= now@.len(),
            forall|k: int| 0 <= k < i ==> !#[trigger] is_new(before@, now@, k),
        decreases now@.len() - i,
    {
        let mut known: bool = false;
        let mut j: usize = 0;
        while j < before.len()
            invariant
                i < now@.len(),
                j <= before@.len(),
                known == (exists|k: int| 0 <= k < j && (#[trigger] before@[k])@ == now@[i as int]@),
            decreases before@.len() - j,
        {
            if same_output(&before[j], &now[i]) {
                assert(before@[j as int]@ == now@[i as int]@);
                known = true;
            }
            j += 1;
        }
        if !known {
            assert(is_new(before@, now@, i as int));
            return Some(i);
        }
        i += 1;
    }
    None
}

/// When something last moved, on the clock of the run.
#[derive(Clone, Copy, Debug, PartialEq, Eq, Structural)]
pub struct Progress {
    pub beat_ms: u64,
}

impl Progress {
    /// Something moved.
    pub fn bump(&mut self, now_ms: u64)
        ensures
            *final(self) == (Progress { beat_ms: now_ms }),
    {
        self.beat_ms = now_ms;
    }

    /// Nothing has moved for too long.
    pub fn wedged(&self, now_ms: u64) -> (r: bool)
        ensures
            r == (now_ms > self.beat_ms + WEDGE_TIMEOUT_MS),
    {
        now_ms.saturating_sub(self.beat_ms) > WEDGE_TIMEOUT_MS
    }
}

/// What the consumer of the frames has seen.
#[derive(Clone, Copy, Debug, PartialEq, Eq, Structural)]
pub struct Delivery {
    pub delivered: u64,
    /// The number of the newest frame delivered.
    pub last_sequence: u64,
    /// When a frame last came, or none was due.
    pub progress_ms: u64,
    pub stalls: u32,
    pub ping_ms: u64,
}

/// What the consumer does next.
#[derive(Clone, Copy, Debug, PartialEq, Eq, Structural)]
pub struct Look {
    /// Frames were due and did not come.
    pub stalled: bool,
    /// Renew the lease.
    pub ping: bool,
}

impl Delivery {
    pub fn new(now_ms: u64) -> (r: Self)
        ensures
            r == (Delivery {
                delivered: 0,
                last_sequence: 0,
                progress_ms: now_ms,
                stalls: 0,
                ping_ms: now_ms,
            }),
    {
        Delivery {
            delivered: 0,
            last_sequence: 0,
            progress_ms: now_ms,
            stalls: 0,
            ping_ms: now_ms,
        }
    }

    /// A frame was claimed. False when it is not newer than the last, so that there is
    /// nothing more to claim for now.
    pub fn claimed(&mut self, sequence: u64, now_ms: u64) -> (r: bool)
        requires
            old(self).delivered < u64::MAX,
        ensures
            r == (sequence > old(self).last_sequence),
            *final(self) == (if r {
                Delivery {
                    delivered: (old(self).delivered + 1) as u64,
                    last_sequence: sequence,
                    progress_ms: now_ms,
                    ..*old(self)
                }
            } else {
                *old(self)
            }),
    {
        if sequence <= self.last_sequence {
            return false;
        }
        self.last_sequence = sequence;
        self.delivered += 1;
        self.progress_ms = now_ms;
        true
    }

    /// The consumer after a look at the ring.
    pub open spec fn looked(self, latest: u64, now_ms: u64) -> (Delivery, Look) {
        let stalled = latest > self.last_sequence && now_ms > self.progress_ms + DELIVERY_STALL_MS;
        let ping = now_ms > self.ping_ms + PING_EVERY_MS;
        (
            Delivery {
                progress_ms: if stalled || latest <= self.last_sequence {
                    now_ms
                } else {
                    self.progress_ms
                },
                stalls: if stalled {
                    (self.stalls + 1) as u32
                } else {
                    self.stalls
                },
                ping_ms: if ping {
                    now_ms
                } else {
                    self.ping_ms
                },
                ..self
            },
            Look { stalled, ping },
        )
    }

    /// Look at the ring, whose newest frame is `latest`: frames that were published and
    /// not delivered for too long are a stall.
    pub fn look(&mut self, latest: u64, now_ms: u64) -> (r: Look)
        requires
            old(self).stalls < u32::MAX,
        ensures
            *final(self) == old(self).looked(latest, now_ms).0,
            r == old(self).looked(latest, now_ms).1,
    {
        let mut stalled: bool = false;
        if latest <= self.last_sequence {
            self.progress_ms = now_ms;
        } else if now_ms.saturating_sub(self.progress_ms) > DELIVERY_STALL_MS {
            self.stalls += 1;
            self.progress_ms = now_ms;
            stalled = true;
        }
        let ping: bool = now_ms.saturating_sub(self.ping_ms) > PING_EVERY_MS;
        if ping {
            self.ping_ms = now_ms;
        }
        Look { stalled, ping }
    }
}

/// What a run of transitions came to.
#[derive(Clone, Copy, Debug, PartialEq, Eq, Structural)]
pub struct Transitions {
    pub done: u32,
    pub errors: u32,
    pub max_enter_ms: u64,
    pub max_leave_ms: u64,
}

impl Transitions {
    pub fn new() -> (r: Self)
        ensures
            r == (Transitions { done: 0, errors: 0, max_enter_ms: 0, max_leave_ms: 0 }),
    {
        Transitions { done: 0, errors: 0, max_enter_ms: 0, max_leave_ms: 0 }
    }

    /// A transition failed.
    pub fn failed(&mut self)
        requires
            old(self).errors < u32::MAX,
        ensures
            *final(self) == (Transitions { errors: (old(self).errors + 1) as u32, ..*old(self) }),
    {
        self.errors += 1;
    }

    /// A round trip is over. True when it is time for a report.
    pub fn round_trip(&mut self, enter_ms: u64, leave_ms: u64) -> (r: bool)
        requires
            old(self).done < u32::MAX,
        ensures
            *final(self) == (Transitions {
                done: (old(self).done + 1) as u32,
                max_enter_ms: if enter_ms > old(self).max_enter_ms {
                    enter_ms
                } else {
                    old(self).max_enter_ms
                },
                max_leave_ms: if leave_ms > old(self).max_leave_ms {
                    leave_ms
                } else {
                    old(self).max_leave_ms
                },
                ..*old(self)
            }),
            r == ((old(self).done + 1) % (REPORT_EVERY as int) == 0),
    {
        self.done += 1;
        if enter_ms > self.max_enter_ms {
            self.max_enter_ms = enter_ms;
        }
        if leave_ms > self.max_leave_ms {
            self.max_leave_ms = leave_ms;
        }
        self.done % REPORT_EVERY == 0
    }
}

/// The driver took the request for the display.
pub fn accepted(result: i32) -> (r: bool)
    ensures
        r == (result == err::OK),
{
    result == err::OK
}

/// Whether the run counts as passed: the transitions could be made, all of them, and
/// the frames kept coming.
pub fn verdict(transitions: Option<&Transitions>, stalls: u32) -> (r: bool)
    ensures
        r == (transitions matches Some(t) && t.errors == 0 && stalls == 0),
{
    match transitions {
        Some(t) => t.errors == 0 && stalls == 0,
        None => false,
    }
}

/// A look at the ring neither counts a frame nor forgets which was the newest, so a
/// frame is counted at most once however often the ring is looked at in between.
pub proof fn law_looking_delivers_nothing(d: Delivery, latest: u64, now_ms: u64)
    ensures
        d.looked(latest, now_ms).0.last_sequence == d.last_sequence,
        d.looked(latest, now_ms).0.delivered == d.delivered,
{
}

/// A consumer that has the newest frame is never found stalled, however long nothing
/// is published.
pub proof fn law_idle_display_is_no_stall(d: Delivery, now_ms: u64)
    ensures
        !d.looked(d.last_sequence, now_ms).1.stalled,
        d.looked(d.last_sequence, now_ms).0.stalls == d.stalls,
        d.looked(d.last_sequence, now_ms).0.progress_ms == now_ms,
{
}

/// A look at the ring, in numbers: frames that are due for more than five seconds are a
/// stall, which starts the wait over; the lease is renewed when a second has gone by.
pub proof fn law_look_cases(d: Delivery, latest: u64, now_ms: u64)
    requires
        d.stalls < u32::MAX,
    ensures
        ({
            let (n, l) = d.looked(latest, now_ms);
            let due = latest > d.last_sequence;
            let late = now_ms > d.progress_ms + 5000;
            &&& l.stalled <==> due && late
            &&& n.stalls == d.stalls + (if due && late {
                1int
            } else {
                0
            })
            &&& n.progress_ms == (if due && !late {
                d.progress_ms
            } else {
                now_ms
            })
            &&& l.ping <==> now_ms > d.ping_ms + 1000
            &&& n.ping_ms == (if l.ping {
                now_ms
            } else {
                d.ping_ms
            })
        }),
{
}

/// The limits of a run.
pub proof fn law_run_limits()
    ensures
        DEFAULT_ITERATIONS == 50,
        WEDGE_TIMEOUT_MS == 15_000,
        DELIVERY_STALL_MS == 5_000,
        PING_EVERY_MS == 1_000,
        REPORT_EVERY == 10,
        STRESS_WIDTH == 1920,
        STRESS_HEIGHT == 1080,
        STRESS_REFRESH_MILLIHZ == 60_000,
{
}

/// The command line is read from left to right: nothing asks for the default, each
/// `--iterations` with a number replaces what was asked for before, and the first
/// argument that does not fit decides.
pub proof fn law_options_cases(args: Seq<Arg>, i: int, n: u32)
    requires
        0 <= i <= args.len(),
    ensures
        ({
            let r = options_from(args, i, n);
            &&& i == args.len() ==> r == (Options::Run { iterations: n })
            &&& i < args.len() && !(args[i] is Iterations) ==> r == Options::Unknown(i as usize)
            &&& i < args.len() && args[i] is Iterations && (i + 1 == args.len() || !(
            args[i + 1] is Number)) ==> r is NeedsNumber
            &&& i + 1 < args.len() && args[i] is Iterations && args[i + 1] is Number ==> r
                == options_from(args, i + 2, args[i + 1]->Number_0)
        }),
{
}

/// The name of the display reads "LuminalVGD AltTab".
pub proof fn law_display_name()
    ensures
        stress_name() == seq![
            0x4Cu16, 0x75, 0x6D, 0x69, 0x6E, 0x61, 0x6C, 0x56, 0x47, 0x44, 0x20, 0x41, 0x6C, 0x74,
            0x54, 0x61, 0x62,
        ],
{
    reveal_strlit("LuminalVGD AltTab");
    assert(stress_name() =~= seq![
        0x4Cu16, 0x75, 0x6D, 0x69, 0x6E, 0x61, 0x6C, 0x56, 0x47, 0x44, 0x20, 0x41, 0x6C, 0x74,
        0x54, 0x61, 0x62,
    ]);
}

} // verus!
