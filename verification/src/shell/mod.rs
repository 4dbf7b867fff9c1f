//! The decisions of the driver shell: what each callback of the operating system
//! changes, answers and asks for.
use vstd::prelude::*;

use crate::adapter::AdapterInfo;
use crate::dispatch::model::{DeviceModel, EffectModel};
use crate::dispatch::{dispatch, effects_of, watchdog_tick, DeviceState, Effect, HandleCtx, Status};
use crate::idmap::{lemma_sorted_exists, sorted_ids, IdMap};
use crate::modepush::committed::{CommittedMode, PathsModel};
use crate::modepush::stage;
use crate::modepush::PushOutcome;
use crate::modes::Mode;
use crate::proto::caps;
use crate::proto::ioctl;
use crate::proto::names::ascii_units;
use crate::session::model::SettleOutcome;
use crate::shell::monitors::{
    LiveModel, LiveMonitor, MonitorSet, MonitorSpec, PushCall, PushStep, PushStepModel, SetModel,
    SpecModel, Unplug,
};
use crate::shell::report::{commit_paths, counted_paths, CommitPath};

pub mod cursor;
pub mod frames;
pub mod monitors;
pub mod report;
pub mod sections;

verus! {

/// Completion codes of the operating system.
pub const STATUS_SUCCESS: i32 = 0;

pub const STATUS_INVALID_PARAMETER: i32 = -1073741811;

pub const STATUS_INVALID_DEVICE_REQUEST: i32 = -1073741808;

pub const STATUS_ACCESS_DENIED: i32 = -1073741790;

pub const STATUS_DEVICE_NOT_READY: i32 = -1073741661;

/// A unit with ASCII lowercase letters as uppercase.
pub open spec fn folded(c: u16) -> u16 {
    if 0x61 <= c <= 0x7A {
        (c - 0x20) as u16
    } else {
        c
    }
}

pub fn char_fold(c: u16) -> (r: u16)
    ensures
        r == folded(c),
{
    if c >= 0x61 && c <= 0x7A {
        c - 0x20
    } else {
        c
    }
}

/// The reference string under which the control interface is registered.
pub open spec fn control_units() -> Seq<u16> {
    ascii_units("LuminalVGDControl"@)
}

/// The file name of an open through the control interface: the reference string, in
/// any case, with or without a leading backslash.
pub open spec fn names_control(name: Seq<u16>) -> bool {
    let bare = if name.len() > 0 && name[0] == 0x5C {
        name.skip(1)
    } else {
        name
    };
    bare.map_values(|c: u16| folded(c)) == control_units().map_values(|c: u16| folded(c))
}

/// The reference string as UTF-16 units.
pub fn control_ref() -> (r: Vec<u16>)
    ensures
        r@ == control_units(),
{
    let text = "LuminalVGDControl";
    let mut out: Vec<u16> = Vec::new();
    proof {
        reveal_strlit("LuminalVGDControl");
    }
    let n: usize = text.unicode_len();
    let mut i: usize = 0;
    assert(out@ =~= control_units().take(0));
    while i < n
        invariant
            i <= n,
            text@ == "LuminalVGDControl"@,
            n == text@.len(),
            control_units().len() == n,
            out@ == control_units().take(i as int),
        decreases n - i,
    {
        out.push(text.get_char(i) as u16);
        i += 1;
        assert(out@ =~= control_units().take(i as int));
    }
    assert(out@ =~= control_units());
    out
}

/// Whether a file name is that of the control interface.
pub fn is_control_name(name: &[u16]) -> (r: bool)
    ensures
        r == names_control(name@),
{
    let want: Vec<u16> = control_ref();
    let skip: usize = if name.len() > 0 && name[0] == 0x5C {
        1
    } else {
        0
    };
    let ghost bare = if name@.len() > 0 && name@[0] == 0x5C {
        name@.skip(1)
    } else {
        name@
    };
    let ghost (x, y) = (
        bare.map_values(|c: u16| folded(c)),
        control_units().map_values(|c: u16| folded(c)),
    );
    if name.len() - skip != want.len() {
        assert(x.len() != y.len());
        return false;
    }
    let mut i: usize = 0;
    while i < want.len()
        invariant
            i <= want@.len(),
            skip <= 1,
            want@ == control_units(),
            name@.len() == skip + want@.len(),
            bare.len() == want@.len(),
            forall|j: int| 0 <= j < bare.len() ==> bare[j] == name@[skip + j],
            x == bare.map_values(|c: u16| folded(c)),
            y == control_units().map_values(|c: u16| folded(c)),
            forall|j: int| 0 <= j < i ==> x[j] == y[j],
            names_control(name@) == (x == y),
        decreases want@.len() - i,
    {
        if char_fold(name[skip + i]) != char_fold(want[i]) {
            assert(x[i as int] != y[i as int]);
            return false;
        }
        assert(x[i as int] == y[i as int]);
        i += 1;
    }
    assert(x =~= y);
    true
}

/// Requests that make no sense before the adapter is up.
pub open spec fn needs_adapter(code: u32) -> bool {
    code == ioctl::IOCTL_CREATE_MONITOR || code == ioctl::IOCTL_DESTROY_MONITOR || code
        == ioctl::IOCTL_SET_PERMANENT_POOL
}

pub fn requires_adapter(code: u32) -> (r: bool)
    ensures
        r == needs_adapter(code),
{
    code == ioctl::IOCTL_CREATE_MONITOR || code == ioctl::IOCTL_DESTROY_MONITOR || code
        == ioctl::IOCTL_SET_PERMANENT_POOL
}

/// How a dispatched request is completed: status and number of bytes.
pub open spec fn completion_of(status: Status, bytes: nat) -> (i32, nat) {
    match status {
        Status::Success => (STATUS_SUCCESS, bytes),
        Status::BadBuffer => (STATUS_INVALID_PARAMETER, 0),
        Status::UnknownCode => (STATUS_INVALID_DEVICE_REQUEST, 0),
    }
}

/// The decimal number in a build stamp.
pub open spec fn decimal_value(digits: Seq<u8>) -> Option<nat>
    decreases digits.len(),
{
    if digits.len() == 0 {
        Some(0)
    } else {
        match decimal_value(digits.drop_last()) {
            None => None,
            Some(v) => if 48 <= digits.last() <= 57 {
                Some(10 * v + (digits.last() - 48) as nat)
            } else {
                None
            },
        }
    }
}

/// Read a build stamp. Anything but a decimal number that fits is refused.
pub fn parse_build(digits: &[u8]) -> (r: Option<u32>)
    ensures
        r == (match decimal_value(digits@) {
            Some(v) => if v <= u32::MAX {
                Some(v as u32)
            } else {
                None
            },
            None => None,
        }),
{
    let mut n: u32 = 0;
    let mut i: usize = 0;
    assert(digits@.take(0) =~= Seq::<u8>::empty());
    while i < digits.len()
        invariant
            i <= digits@.len(),
            decimal_value(digits@.take(i as int)) == Some(n as nat),
        decreases digits@.len() - i,
    {
        let d: u8 = digits[i];
        proof {
            assert(digits@.take(i + 1).drop_last() =~= digits@.take(i as int));
            lemma_decimal_prefix(digits@, i + 1);
        }
        if d < 48 || d > 57 {
            return None;
        }
        let wide: u64 = 10 * (n as u64) + (d - 48) as u64;
        if wide > u32::MAX as u64 {
            return None;
        }
        n = wide as u32;
        i += 1;
    }
    assert(digits@.take(i as int) =~= digits@);
    Some(n)
}

/// More digits never make a number smaller, and never mend one.
proof fn lemma_decimal_prefix(digits: Seq<u8>, n: int)
    requires
        0 <= n <= digits.len(),
    ensures
        decimal_value(digits.take(n)) is None ==> decimal_value(digits) is None,
        decimal_value(digits) matches Some(v) ==> (decimal_value(digits.take(n)) matches Some(u) && u
            <= v),
    decreases digits.len(),
{
    if n < digits.len() {
        assert(digits.drop_last().take(n) =~= digits.take(n));
        lemma_decimal_prefix(digits.drop_last(), n);
    } else {
        assert(digits.take(n) =~= digits);
    }
}

/// ASCII text as UTF-16 in a fixed array, cut or NUL-padded to its length.
pub fn wide<const N: usize>(s: &[u8]) -> (r: [u16; N])
    ensures
        forall|i: int|
            0 <= i < N ==> #[trigger] r@[i] == (if i < s@.len() {
                s@[i] as u16
            } else {
                0
            }),
{
    let mut out: [u16; N] = [0; N];
    let mut i: usize = 0;
    while i < s.len() && i < N
        invariant
            i <= N,
            i <= s@.len(),
            forall|j: int|
                0 <= j < N ==> #[trigger] out@[j] == (if j < i {
                    s@[j] as u16
                } else {
                    0
                }),
        decreases N - i,
    {
        out[i] = s[i] as u16;
        i += 1;
    }
    out
}

/// The blob read from the registry: present, binary and not empty, cut to its length.
pub fn stored_blob(found: bool, binary: bool, got: usize, buffer: Vec<u8>) -> (r: Option<Vec<u8>>)
    ensures
        r is Some <==> found && binary && got > 0,
        r matches Some(b) ==> b@ == buffer@.take(
            if got <= buffer@.len() {
                got as int
            } else {
                buffer@.len() as int
            },
        ),
{
    if !found || !binary || got == 0 {
        return None;
    }
    let mut out = buffer;
    out.truncate(got);
    assert(out@ =~= buffer@.take(
        if got <= buffer@.len() {
            got as int
        } else {
            buffer@.len() as int
        },
    ));
    Some(out)
}

/// Which device and adapter a start belongs to.
#[derive(Clone, Copy, Debug, PartialEq, Eq, Structural)]
pub struct StartMark {
    pub device: u64,
    /// 0 until the adapter object is known.
    pub adapter: u64,
    pub epoch: u64,
}

/// What to do with a request that just arrived.
#[derive(Clone, Copy, Debug, PartialEq, Eq, Structural)]
pub enum Admission {
    /// The handle may not use the control device.
    Denied,
    /// The adapter is not up yet.
    NotReady,
    Go,
}

/// What the driver can do.
pub const SHELL_CAPS: u32 = caps::MULTI_MODE | caps::PERMANENT_POOL | caps::HDR10 | caps::SDR10_BIT
    | caps::HW_CURSOR | caps::GAMMA_RAMP;

/// The build number of a driver that was built without a stamp.
pub const UNSTAMPED_BUILD: u32 = 14;

/// The build number: that of the stamp, if there is one.
pub fn driver_build(stamp: Option<&[u8]>) -> (r: Option<u32>)
    ensures
        r == (match stamp {
            None => Some(UNSTAMPED_BUILD),
            Some(digits) => match decimal_value(digits@) {
                Some(v) => if v <= u32::MAX {
                    Some(v as u32)
                } else {
                    None
                },
                None => None,
            },
        }),
{
    match stamp {
        None => Some(UNSTAMPED_BUILD),
        Some(digits) => parse_build(digits),
    }
}

/// How long a teardown waits for calls that were begun before it.
pub const PUSH_DRAIN_DEADLINE_MS: u64 = 500;

/// What a teardown does about calls that were begun before it.
#[derive(Clone, Copy, Debug, PartialEq, Eq, Structural)]
pub enum DrainWait {
    Done,
    GiveUp,
    Sleep,
}

/// How to complete a request, and what to do then.
pub struct Completion {
    pub status: i32,
    pub info: usize,
    pub effects: Vec<Effect>,
}

/// What a shell holds.
pub struct ShellModel {
    pub dev: DeviceModel,
    pub committed: PathsModel,
    pub handles: Map<u64, HandleCtx>,
    pub monitors: SetModel,
    pub adapter: Option<u64>,
    /// Moves whenever the adapter goes away.
    pub epoch: u64,
    pub device: Option<u64>,
    pub started: Option<StartMark>,
    pub recovering: bool,
    pub duck_cycles: u32,
    pub pushes: u32,
    pub start_ms: u64,
}

impl ShellModel {
    /// Whatever was committed on a monitor is gone.
    pub open spec fn forgetting(self, handle: u64) -> ShellModel {
        let record = self.committed.forgotten(handle);
        ShellModel {
            committed: record,
            dev: DeviceModel { token: record.generation, ..self.dev },
            ..self
        }
    }

    /// The device is gone for good: nothing is attached, parked or committed any more,
    /// and every session is over.
    pub open spec fn torn_down(self, device: u64) -> ShellModel {
        let gone = self.committed.committed(Seq::empty(), 0);
        let table = self.dev.table.without_sessions(self.dev.table.monitors.dom());
        ShellModel {
            dev: DeviceModel { table, token: gone.generation, ..self.dev },
            committed: gone,
            monitors: SetModel { live: Map::empty(), parked: Seq::empty() },
            device: None,
            started: if self.started_for(device) {
                None
            } else {
                self.started
            },
            ..self.without_adapter()
        }
    }

    /// Every monitor that was taken out for a recovery has been dealt with. If the
    /// adapter went away meanwhile, the parked ones are given up.
    pub open spec fn duck_finished(self, expected_epoch: u64) -> ShellModel {
        if self.epoch == expected_epoch {
            self
        } else {
            ShellModel { monitors: SetModel { parked: Seq::empty(), ..self.monitors }, ..self }
        }
    }

    /// A recovery in which monitors depart was counted, if one more is allowed.
    pub open spec fn cycle_counted(self, cap: u32) -> ShellModel {
        if self.duck_cycles < cap {
            ShellModel { duck_cycles: (self.duck_cycles + 1) as u32, ..self }
        } else {
            self
        }
    }

    /// Recoveries in which some monitors departed and returned, one after the other.
    pub open spec fn cycles(self, cap: u32, rounds: Seq<Seq<LiveModel>>) -> ShellModel
        decreases rounds.len(),
    {
        if rounds.len() == 0 {
            self
        } else {
            let before = self.cycles(cap, rounds.drop_last());
            before.cycle_counted(cap).all_departed(rounds.last()).duck_finished(before.epoch)
        }
    }

    /// A monitor that was taken out has departed: it is parked, and whatever was
    /// committed on it is gone.
    pub open spec fn departed(self, m: LiveModel) -> ShellModel {
        ShellModel {
            monitors: SetModel { parked: self.monitors.parked.push(m.spec), ..self.monitors },
            ..self.forgetting(m.handle)
        }
    }

    /// Monitors that were taken out have departed, one after the other.
    pub open spec fn all_departed(self, ms: Seq<LiveModel>) -> ShellModel
        decreases ms.len(),
    {
        if ms.len() == 0 {
            self
        } else {
            self.all_departed(ms.drop_last()).departed(ms.last())
        }
    }

    /// What a push comes to now.
    pub open spec fn push_step(self, session_id: u64, targets: Seq<Mode>) -> PushStepModel {
        self.monitors.push_step(
            session_id,
            targets,
            self.recovering,
            self.adapter is Some,
            self.committed,
        )
    }

    /// What a handle is allowed.
    pub open spec fn authorized(self, file: u64) -> bool {
        self.handles.dom().contains(file) && self.handles[file].authorized
    }

    pub open spec fn admission(self, file: u64, code: u32) -> Admission {
        if !self.authorized(file) {
            Admission::Denied
        } else if needs_adapter(code) && self.adapter is None {
            Admission::NotReady
        } else {
            Admission::Go
        }
    }

    /// The adapter is gone: nothing that was begun under it counts any more.
    pub open spec fn without_adapter(self) -> ShellModel {
        ShellModel { adapter: None, epoch: (self.epoch + 1) as u64, duck_cycles: 0, ..self }
    }

    pub open spec fn started_for(self, device: u64) -> bool {
        self.started matches Some(m) && m.device == device
    }
}

/// The state of the driver shell.
pub struct Shell {
    pub dev: DeviceState,
    /// One context per open handle, by file object.
    pub handles: IdMap<HandleCtx>,
    pub monitors: MonitorSet,
    pub adapter: Option<u64>,
    pub epoch: u64,
    pub device: Option<u64>,
    pub started: Option<StartMark>,
    /// A device recovery is in flight.
    pub recovering: bool,
    pub duck_cycles: u32,
    /// Calls that publish target lists and have not returned.
    pub pushes: u32,
    /// The clock when the shell came up.
    pub start_ms: u64,
}

impl View for Shell {
    type V = ShellModel;

    open spec fn view(&self) -> ShellModel {
        ShellModel {
            dev: self.dev@,
            committed: self.dev.committed@,
            handles: self.handles@,
            monitors: self.monitors@,
            adapter: self.adapter,
            epoch: self.epoch,
            device: self.device,
            started: self.started,
            recovering: self.recovering,
            duck_cycles: self.duck_cycles,
            pushes: self.pushes,
            start_ms: self.start_ms,
        }
    }
}

impl Shell {
    pub open spec fn wf(&self) -> bool {
        self.dev.wf() && self.handles.wf() && self.monitors.wf()
    }

    /// A shell around a device, at the clock value `start_ms`.
    pub fn init(dev: DeviceState, start_ms: u64) -> (r: Shell)
        requires
            dev.wf(),
        ensures
            r.wf(),
            r@.dev == dev@,
            r@.committed == dev.committed@,
            r@.handles == Map::<u64, HandleCtx>::empty(),
            r@.monitors.live == Map::<u64, LiveModel>::empty(),
            r@.monitors.parked == Seq::<SpecModel>::empty(),
            r@.adapter is None,
            r@.epoch == 0,
            r@.device is None,
            r@.started is None,
            !r@.recovering,
            r@.duck_cycles == 0,
            r@.pushes == 0,
            r@.start_ms == start_ms,
    {
        Shell {
            dev,
            handles: IdMap::new(),
            monitors: MonitorSet::new(),
            adapter: None,
            epoch: 0,
            device: None,
            started: None,
            recovering: false,
            duck_cycles: 0,
            pushes: 0,
            start_ms,
        }
    }

    /// The shell, which is there once a device has been added.
    pub fn get(slot: &Option<Shell>) -> (r: &Shell)
        requires
            *slot is Some,
        ensures
            Some(*r) == *slot,
    {
        slot.as_ref().unwrap()
    }

    /// The shell, if a device has been added.
    pub fn try_get(slot: &Option<Shell>) -> (r: Option<&Shell>)
        ensures
            match r {
                Some(s) => *slot == Some(*s),
                None => *slot is None,
            },
    {
        slot.as_ref()
    }

    /// Milliseconds since the shell came up, on the clock used for leases.
    pub fn now_ms(&self, clock_ms: u64) -> (r: u64)
        ensures
            r == (if clock_ms >= self@.start_ms {
                clock_ms - self@.start_ms
            } else {
                0
            }),
    {
        clock_ms.saturating_sub(self.start_ms)
    }

    pub fn adapter(&self) -> (r: Option<u64>)
        ensures
            r == self@.adapter,
    {
        self.adapter
    }

    pub fn adapter_epoch(&self) -> (r: u64)
        ensures
            r == self@.epoch,
    {
        self.epoch
    }

    /// Publish the adapter, unless it has gone away since `epoch`.
    pub fn set_adapter_if_epoch(&mut self, adapter: u64, epoch: u64) -> (r: bool)
        ensures
            r == (old(self)@.epoch == epoch),
            final(self)@ == (if r {
                ShellModel { adapter: Some(adapter), ..old(self)@ }
            } else {
                old(self)@
            }),
            old(self).wf() ==> final(self).wf(),
    {
        if self.epoch != epoch {
            return false;
        }
        self.adapter = Some(adapter);
        true
    }

    /// The adapter is gone.
    pub fn clear_adapter(&mut self)
        requires
            old(self)@.epoch < u64::MAX,
        ensures
            final(self)@ == old(self)@.without_adapter(),
            old(self).wf() ==> final(self).wf(),
    {
        self.adapter = None;
        self.epoch += 1;
        self.duck_cycles = 0;
    }

    pub fn wdf_device(&self) -> (r: Option<u64>)
        ensures
            r == self@.device,
    {
        self.device
    }

    /// A device was added; it supersedes the one before.
    pub fn set_wdf_device(&mut self, device: u64)
        ensures
            final(self)@ == (ShellModel { device: Some(device), ..old(self)@ }),
            old(self).wf() ==> final(self).wf(),
    {
        self.device = Some(device);
    }

    pub fn clear_wdf_device(&mut self)
        ensures
            final(self)@ == (ShellModel { device: None, ..old(self)@ }),
            old(self).wf() ==> final(self).wf(),
    {
        self.device = None;
    }

    /// The adapter is up.
    pub fn ready(&self) -> (r: bool)
        ensures
            r == (self@.adapter is Some),
    {
        self.adapter.is_some()
    }

    /// A handle was opened under `name`. Opens of the display stack itself come under
    /// other names and are let in without rights; an open of the control interface
    /// needs `allowed`.
    pub fn file_opened(&mut self, file: u64, name: &[u16], allowed: bool) -> (r: i32)
        requires
            old(self).wf(),
        ensures
            final(self).wf(),
            r == (if names_control(name@) && !allowed {
                STATUS_ACCESS_DENIED
            } else {
                STATUS_SUCCESS
            }),
            final(self)@ == (if names_control(name@) && !allowed {
                old(self)@
            } else {
                ShellModel {
                    handles: old(self)@.handles.insert(
                        file,
                        HandleCtx { handshaken: false, authorized: names_control(name@) },
                    ),
                    ..old(self)@
                }
            }),
    {
        if !is_control_name(name) {
            self.handles.insert(file, HandleCtx { handshaken: false, authorized: false });
            return STATUS_SUCCESS;
        }
        if !allowed {
            return STATUS_ACCESS_DENIED;
        }
        self.handles.insert(file, HandleCtx { handshaken: false, authorized: true });
        STATUS_SUCCESS
    }

    pub fn file_closed(&mut self, file: u64)
        requires
            old(self).wf(),
        ensures
            final(self).wf(),
            final(self)@ == (ShellModel {
                handles: old(self)@.handles.remove(file),
                ..old(self)@
            }),
    {
        let _ = self.handles.remove(file);
    }

    /// Whether a request may be looked at now.
    pub fn admission_of(&self, file: u64, code: u32) -> (r: Admission)
        requires
            self.wf(),
        ensures
            r == self@.admission(file, code),
    {
        let authorized: bool = match self.handles.get(file) {
            Some(h) => h.authorized,
            None => false,
        };
        if !authorized {
            return Admission::Denied;
        }
        if requires_adapter(code) && !self.ready() {
            return Admission::NotReady;
        }
        Admission::Go
    }

    /// Carry out a request that was admitted.
    pub fn control(&mut self, file: u64, now_ms: u64, code: u32, input: &[u8], output: &mut [u8]) -> (r:
        Completion)
        requires
            old(self).wf(),
            old(self)@.dev.has_room(),
        ensures
            final(self).wf(),
            ({
                let known = old(self)@.handles.dom().contains(file);
                let handle = if known {
                    old(self)@.handles[file]
                } else {
                    HandleCtx { handshaken: false, authorized: false }
                };
                let (status, answer) = old(self)@.dev.outcome(
                    handle.handshaken,
                    now_ms,
                    code,
                    input@,
                    old(output)@.len(),
                );
                let done = completion_of(status, answer.reply.len());
                &&& r.status == done.0
                &&& r.info == done.1
                &&& effects_of(r.effects@) == answer.effects
                &&& final(output)@ == answer.reply + old(output)@.skip(answer.reply.len() as int)
                &&& final(self)@ == (ShellModel {
                    dev: answer.dev,
                    handles: old(self)@.handles.insert(
                        file,
                        HandleCtx { handshaken: answer.handshaken, authorized: handle.authorized },
                    ),
                    ..old(self)@
                })
            }),
    {
        let mut handle: HandleCtx = match self.handles.get(file) {
            Some(h) => HandleCtx { handshaken: h.handshaken, authorized: h.authorized },
            None => HandleCtx { handshaken: false, authorized: false },
        };
        let result = dispatch(&mut self.dev, &mut handle, now_ms, code, input, output);
        self.handles.insert(file, handle);
        let (status, info): (i32, usize) = match result.status {
            Status::Success => (STATUS_SUCCESS, result.bytes_written),
            Status::BadBuffer => (STATUS_INVALID_PARAMETER, 0),
            Status::UnknownCode => (STATUS_INVALID_DEVICE_REQUEST, 0),
        };
        Completion { status, info, effects: result.effects }
    }

    /// The watchdog timer fired. Before the adapter is up nothing is reaped.
    pub fn watchdog(&mut self, now_ms: u64) -> (r: Vec<Effect>)
        requires
            old(self).wf(),
        ensures
            final(self).wf(),
            old(self)@.adapter is None ==> final(self)@ == old(self)@ && r@.len() == 0,
            old(self)@.adapter is Some ==> effects_of(r@) == old(self)@.dev.sweep_effects(now_ms)
                && final(self)@ == (ShellModel {
                dev: old(self)@.dev.with_table(
                    old(self)@.dev.table.without_sessions(
                        old(self)@.dev.table.expired_sessions(now_ms),
                    ),
                ),
                ..old(self)@
            }),
    {
        if !self.ready() {
            return Vec::new();
        }
        watchdog_tick(&mut self.dev, now_ms)
    }

    /// A device enters its working state. False when it has been started already.
    pub fn begin_start(&mut self, device: u64) -> (r: bool)
        ensures
            r == !old(self)@.started_for(device),
            final(self)@ == (if r {
                ShellModel {
                    started: Some(StartMark { device, adapter: 0, epoch: old(self)@.epoch }),
                    ..old(self)@
                }
            } else {
                old(self)@
            }),
            old(self).wf() ==> final(self).wf(),
    {
        if let Some(m) = self.started {
            if m.device == device {
                return false;
            }
        }
        self.started = Some(StartMark { device, adapter: 0, epoch: self.epoch });
        true
    }

    /// The adapter of a starting device was asked for, with this outcome. After a
    /// failure the device can be started again.
    pub fn start_result(&mut self, device: u64, ok: bool, adapter: u64)
        ensures
            final(self)@ == (if !old(self)@.started_for(device) {
                old(self)@
            } else if ok {
                ShellModel {
                    started: Some(StartMark { adapter, ..old(self)@.started->0 }),
                    ..old(self)@
                }
            } else {
                ShellModel { started: None, ..old(self)@ }
            }),
            old(self).wf() ==> final(self).wf(),
    {
        if let Some(m) = self.started {
            if m.device == device {
                self.started =
                if ok {
                    Some(StartMark { device: m.device, adapter, epoch: m.epoch })
                } else {
                    None
                };
            }
        }
    }

    /// An adapter reports that it is initialized. Returns the epoch it was started
    /// under, or `None` when that start is not the one in progress.
    pub fn init_finished(&self, init_status: i32, adapter: u64) -> (r: Option<u64>)
        ensures
            r == (match self@.started {
                Some(m) => if init_status >= 0 && (m.adapter == adapter || m.adapter == 0) {
                    Some(m.epoch)
                } else {
                    None
                },
                None => None,
            }),
    {
        if init_status < 0 {
            return None;
        }
        match self.started {
            Some(m) => if m.adapter == adapter || m.adapter == 0 {
                Some(m.epoch)
            } else {
                None
            },
            None => None,
        }
    }

    /// Bring up an adapter that was initialized under `epoch`: take note of what can
    /// render, bring the stored pool back, publish the adapter. `None` when it has gone
    /// away in the meantime.
    pub fn adapter_ready(&mut self, adapter: u64, epoch: u64, adapters: Vec<AdapterInfo>, now_ms: u64) -> (r:
        Option<Vec<Effect>>)
        requires
            old(self).wf(),
            old(self)@.dev.has_room(),
        ensures
            final(self).wf(),
            r is Some <==> old(self)@.epoch == epoch,
            r is None ==> final(self)@ == old(self)@,
            r matches Some(effects) ==> {
                let known = DeviceModel { adapters: adapters@, ..old(self)@.dev };
                &&& final(self)@ == (ShellModel {
                    adapter: Some(adapter),
                    dev: if known.pool_restorable() {
                        known.pool_pending().with_pool(now_ms, known.pool)
                    } else {
                        known
                    },
                    ..old(self)@
                })
                &&& effects_of(effects@) == (if known.pool_restorable() {
                    known.pool_pending().pool_run(now_ms, known.pool).effects
                } else {
                    Seq::empty()
                })
            },
    {
        if self.epoch != epoch {
            return None;
        }
        self.dev.set_adapters(adapters);
        let effects = self.dev.startup(now_ms);
        let _ = self.set_adapter_if_epoch(adapter, epoch);
        proof {
            let known = DeviceModel { adapters: adapters@, ..old(self)@.dev };
            if !known.pool_restorable() {
                assert(effects_of(effects@) =~= Seq::<EffectModel>::empty());
            }
        }
        Some(effects)
    }

    /// The device is gone for good: nothing is attached, parked or committed any more,
    /// every session is over, and the pool waits for the next start. Returns the attached
    /// monitors, whose workers and rings are left to be ended, and the parked ones, of
    /// which only the rings are left.
    pub fn final_exit(&mut self, device: u64) -> (r: (Vec<LiveMonitor>, Vec<MonitorSpec>))
        requires
            old(self).wf(),
            old(self)@.epoch < u64::MAX,
        ensures
            final(self).wf(),
            r.0@.map_values(|m: LiveMonitor| m@) == sorted_ids(
                old(self)@.monitors.live.dom(),
            ).map_values(|s: u64| old(self)@.monitors.live[s]),
            r.1@.map_values(|s: MonitorSpec| s@) == old(self)@.monitors.parked,
            final(self)@ == old(self)@.torn_down(device),
    {
        self.clear_adapter();
        self.clear_wdf_device();
        let drained = self.monitors.take_all();
        let parked = self.monitors.take_parked();
        let none: Vec<(u64, CommittedMode)> = Vec::new();
        assert(none@ =~= Seq::<(u64, CommittedMode)>::empty());
        let _ = self.dev.committed.apply(none.as_slice(), 0);
        self.dev.device_teardown_reset();
        if let Some(m) = self.started {
            if m.device == device {
                self.started = None;
            }
        }
        (drained, parked)
    }

    /// The operating system committed these paths. Returns how many were recorded.
    pub fn commit_modes(&mut self, paths: &[CommitPath]) -> (r: u32)
        requires
            old(self).wf(),
            paths@.len() <= u32::MAX,
        ensures
            final(self).wf(),
            ({
                let all = counted_paths(paths@);
                let n = if all.len() <= crate::modepush::MAX_COMMITTED_PATHS {
                    all.len() as int
                } else {
                    crate::modepush::MAX_COMMITTED_PATHS as int
                };
                let record = old(self)@.committed.committed(all.take(n), all.len() as u32);
                &&& r == old(self)@.committed.recorded(all.take(n))
                &&& final(self)@ == (ShellModel {
                    committed: record,
                    dev: DeviceModel { token: record.generation, ..old(self)@.dev },
                    ..old(self)@
                })
            }),
    {
        let (recorded, total) = commit_paths(paths);
        self.dev.committed.apply(recorded.as_slice(), total)
    }

    /// Take over the record of what is committed, as it was just read. Callbacks that may
    /// not wait keep that record beside the shell.
    pub fn adopt_committed(
        &mut self,
        slots: &[Option<(u64, CommittedMode)>; 16],
        active: u32,
        generation: u64,
    )
        requires
            old(self).wf(),
        ensures
            final(self).wf(),
            final(self)@ == (ShellModel {
                committed: PathsModel::read_as(slots@, active, generation),
                dev: DeviceModel { token: generation, ..old(self)@.dev },
                ..old(self)@
            }),
    {
        self.dev.committed.adopt(slots, active, generation);
    }

    /// A monitor departed; whatever was committed on it is gone.
    pub fn forget_committed(&mut self, handle: u64)
        requires
            old(self).wf(),
        ensures
            final(self).wf(),
            final(self)@ == old(self)@.forgetting(handle),
    {
        self.dev.committed.forget(handle);
    }

    /// Begin to attach a monitor. Returns the adapter to attach it to, if there is one,
    /// and the parked monitor whose place it takes, if there is one. Without an adapter
    /// nothing changes.
    pub fn begin_plug(&mut self, session_id: u64) -> (r: Option<(u64, Option<MonitorSpec>)>)
        requires
            old(self).wf(),
        ensures
            final(self).wf(),
            match old(self)@.adapter {
                None => r is None && final(self)@ == old(self)@,
                Some(a) => {
                    &&& r matches Some((adapter, stale))
                    &&& adapter == a
                    &&& stale is Some <==> crate::shell::monitors::first_parked(
                        old(self)@.monitors.parked,
                        session_id,
                    ) is Some
                    &&& stale matches Some(s) ==> s@
                        == old(self)@.monitors.parked[crate::shell::monitors::first_parked(
                        old(self)@.monitors.parked,
                        session_id,
                    )->0]
                    &&& final(self)@ == (ShellModel {
                        monitors: old(self)@.monitors.unparked(session_id),
                        ..old(self)@
                    })
                },
            },
    {
        match self.adapter {
            None => None,
            Some(a) => {
                let stale = self.monitors.unpark(session_id);
                Some((a, stale))
            },
        }
    }

    /// A recovery begins, unless one is in flight already.
    pub fn begin_recovery(&mut self) -> (r: bool)
        ensures
            r == !old(self)@.recovering,
            final(self)@ == (ShellModel { recovering: true, ..old(self)@ }),
            old(self).wf() ==> final(self).wf(),
    {
        let first: bool = !self.recovering;
        self.recovering = true;
        first
    }

    pub fn end_recovery(&mut self)
        ensures
            final(self)@ == (ShellModel { recovering: false, ..old(self)@ }),
            old(self).wf() ==> final(self).wf(),
    {
        self.recovering = false;
    }

    /// Count a recovery in which monitors depart. False once `cap` of them have been
    /// counted under this adapter: monitors that keep failing would depart and return for
    /// ever.
    pub fn count_duck_cycle(&mut self, cap: u32) -> (r: bool)
        ensures
            r == (old(self)@.duck_cycles < cap),
            final(self)@ == old(self)@.cycle_counted(cap),
            old(self).wf() ==> final(self).wf(),
    {
        if self.duck_cycles >= cap {
            return false;
        }
        self.duck_cycles += 1;
        true
    }

    /// The parked monitors do not return. They are handed out, and their rings are to be
    /// ended.
    pub fn give_up_parked(&mut self) -> (r: Vec<MonitorSpec>)
        requires
            old(self).wf(),
        ensures
            final(self).wf(),
            r@.map_values(|s: MonitorSpec| s@) == old(self)@.monitors.parked,
            final(self)@ == (ShellModel {
                monitors: SetModel { parked: Seq::empty(), ..old(self)@.monitors },
                ..old(self)@
            }),
    {
        self.monitors.take_parked()
    }

    /// A monitor that was taken out has departed, or could not be made to. Its committed
    /// mode goes with it.
    pub fn departed(&mut self, m: LiveMonitor, ok: bool)
        requires
            old(self).wf(),
            m@.spec.wf(),
        ensures
            final(self).wf(),
            final(self)@ == (if ok {
                old(self)@.departed(m@)
            } else {
                ShellModel { monitors: old(self)@.monitors.with_live(m@), ..old(self)@ }
            }),
    {
        if ok {
            self.dev.committed.forget(m.handle);
        }
        self.monitors.departed(m, ok);
    }

    /// Every monitor that was taken out has been dealt with, and `parked` of them were
    /// parked. If the adapter went away meanwhile, all parked monitors are given up: they
    /// are returned, their rings are to be ended, and none counts.
    pub fn finish_duck(&mut self, expected_epoch: u64, parked: usize) -> (r: (
        usize,
        Vec<MonitorSpec>,
    ))
        requires
            old(self).wf(),
        ensures
            final(self).wf(),
            final(self)@ == old(self)@.duck_finished(expected_epoch),
            old(self)@.epoch == expected_epoch ==> r.0 == parked && r.1@.len() == 0,
            old(self)@.epoch != expected_epoch ==> r.0 == 0 && r.1@.map_values(
                |s: MonitorSpec| s@,
            ) == old(self)@.monitors.parked,
    {
        if self.epoch == expected_epoch {
            return (parked, Vec::new());
        }
        (0, self.monitors.take_parked())
    }

    /// Begin to attach the parked monitors again. Returns them, and the adapter, if
    /// there is one; without it they are given up.
    pub fn begin_replug(&mut self) -> (r: (Vec<MonitorSpec>, Option<u64>))
        requires
            old(self).wf(),
        ensures
            final(self).wf(),
            r.1 == old(self)@.adapter,
            r.0@.map_values(|s: MonitorSpec| s@) == old(self)@.monitors.parked,
            forall|i: int| 0 <= i < r.0@.len() ==> (#[trigger] r.0@[i])@.wf(),
            final(self)@ == (ShellModel {
                monitors: SetModel { parked: Seq::empty(), ..old(self)@.monitors },
                ..old(self)@
            }),
    {
        let parked = self.monitors.take_parked();
        (parked, self.adapter)
    }

    /// Push another target list: what it came to, or the call to make and the epoch
    /// under which to make it.
    pub fn begin_push(&mut self, session_id: u64, targets: &[Mode]) -> (r: (PushStep, u64))
        requires
            old(self).wf(),
            targets@.len() <= u32::MAX,
            old(self)@.pushes < u32::MAX,
        ensures
            final(self).wf(),
            r.1 == old(self)@.epoch,
            r.0@ == old(self)@.push_step(session_id, targets@),
            final(self)@ == (ShellModel {
                monitors: old(self)@.monitors.after_push_step(
                    session_id,
                    targets@,
                    old(self)@.recovering,
                    old(self)@.adapter is Some,
                    old(self)@.committed,
                ),
                pushes: if r.0@ is Call {
                    (old(self)@.pushes + 1) as u32
                } else {
                    old(self)@.pushes
                },
                ..old(self)@
            }),
    {
        let present: bool = self.adapter.is_some();
        let step = self.monitors.begin_push(
            session_id,
            targets,
            self.recovering,
            present,
            &self.dev.committed,
        );
        if let PushStep::Call(_) = &step {
            self.pushes += 1;
        }
        (step, self.epoch)
    }

    /// The last moment before the call of a push: whether the adapter it was begun
    /// under is still there.
    pub fn push_current(&self, epoch: u64) -> (r: bool)
        ensures
            r == (self@.epoch == epoch),
    {
        self.epoch == epoch
    }

    /// The call of a push is over: it returned `status`, or it was not made because the
    /// adapter had gone away.
    pub fn finish_push(
        &mut self,
        session_id: u64,
        call: PushCall,
        targets: &[Mode],
        status: Option<i32>,
    ) -> (r: PushOutcome)
        requires
            old(self).wf(),
            old(self)@.monitors.describes(session_id, call.handle, call.previous@),
            targets@.len() <= u32::MAX,
            old(self)@.pushes > 0,
        ensures
            final(self).wf(),
            ({
                let undone = old(self)@.monitors.restored(
                    session_id,
                    call.handle,
                    targets@,
                    call.previous@,
                );
                let restorable = old(self)@.monitors.can_restore(
                    session_id,
                    call.handle,
                    targets@,
                );
                let count = targets@.len() as u32;
                &&& final(self)@ == (ShellModel {
                    monitors: if status == Some(0i32) {
                        old(self)@.monitors
                    } else {
                        undone
                    },
                    pushes: (old(self)@.pushes - 1) as u32,
                    ..old(self)@
                })
                &&& r == (match status {
                    None => PushOutcome::Deferred { stage: stage::ADAPTER_TORN_DOWN, count },
                    Some(code) => if code == 0 {
                        PushOutcome::Applied { published: count, superset: call.superset }
                    } else {
                        PushOutcome::Failed {
                            stage: if restorable {
                                stage::OS_CALL
                            } else {
                                stage::ROLLBACK_RACED
                            },
                            code,
                            count,
                            rolled_back: restorable,
                        }
                    },
                })
            }),
    {
        self.pushes -= 1;
        match status {
            None => self.monitors.abandon_push(session_id, call, targets),
            Some(code) => self.monitors.finish_push(session_id, call, targets, code),
        }
    }

    /// A teardown waits for calls that were begun before it, but not for ever.
    pub fn drain_wait(&self, elapsed_ms: u64) -> (r: DrainWait)
        ensures
            r is Done <==> self@.pushes == 0,
            r is GiveUp <==> self@.pushes > 0 && elapsed_ms >= PUSH_DRAIN_DEADLINE_MS,
    {
        if self.pushes == 0 {
            DrainWait::Done
        } else if elapsed_ms >= PUSH_DRAIN_DEADLINE_MS {
            DrainWait::GiveUp
        } else {
            DrainWait::Sleep
        }
    }

    /// A monitor was created and is about to arrive. If it takes the place of another,
    /// that one is returned, and whatever was committed on it is gone.
    pub fn attach(&mut self, m: LiveMonitor) -> (r: Option<LiveMonitor>)
        requires
            old(self).wf(),
            m@.spec.wf(),
        ensures
            final(self).wf(),
            ({
                let live = old(self)@.monitors.live;
                let with = ShellModel { monitors: old(self)@.monitors.with_live(m@), ..old(self)@ };
                &&& r is Some <==> live.dom().contains(m@.spec.session_id)
                &&& r matches Some(o) ==> o@ == live[m@.spec.session_id]
                &&& final(self)@ == (match r {
                    Some(o) => with.forgetting(o@.handle),
                    None => with,
                })
            }),
    {
        let displaced = self.monitors.insert(m);
        if let Some(o) = &displaced {
            self.forget_committed(o.handle);
        }
        displaced
    }

    /// A monitor that was created did not arrive. When it had been parked, whatever was
    /// committed on it is gone.
    pub fn attach_failed(&mut self, session_id: u64, replug: bool) -> (r: Option<LiveMonitor>)
        requires
            old(self).wf(),
        ensures
            final(self).wf(),
            ({
                let live = old(self)@.monitors.live;
                let without = ShellModel {
                    monitors: SetModel { live: live.remove(session_id), ..old(self)@.monitors },
                    ..old(self)@
                };
                &&& r is Some <==> live.dom().contains(session_id)
                &&& r matches Some(o) ==> o@ == live[session_id]
                &&& final(self)@ == (if r is Some && replug {
                    without.forgetting(r->0@.handle)
                } else {
                    without
                })
            }),
    {
        let removed = self.monitors.remove(session_id);
        if replug {
            if let Some(o) = &removed {
                self.forget_committed(o.handle);
            }
        }
        removed
    }

    /// The session of a monitor is over.
    pub fn unplug(&mut self, session_id: u64) -> (r: Unplug)
        requires
            old(self).wf(),
        ensures
            final(self).wf(),
            match crate::shell::monitors::first_parked(old(self)@.monitors.parked, session_id) {
                Some(i) => r matches Unplug::Parked(s) && s@ == old(self)@.monitors.parked[i]
                    && final(self)@ == (ShellModel {
                    monitors: old(self)@.monitors.unparked(session_id),
                    ..old(self)@
                }),
                None => {
                    let live = old(self)@.monitors.live;
                    let without = ShellModel {
                        monitors: SetModel { live: live.remove(session_id), ..old(self)@.monitors },
                        ..old(self)@
                    };
                    if live.dom().contains(session_id) {
                        &&& r matches Unplug::Live(m) && m@ == live[session_id]
                        &&& final(self)@ == without.forgetting(live[session_id].handle)
                    } else {
                        r is Absent && final(self)@ == without
                    }
                },
            },
    {
        let r = self.monitors.unplug(session_id);
        if let Unplug::Live(m) = &r {
            self.forget_committed(m.handle);
        }
        r
    }

    /// Report to the session table what became of an update.
    pub fn settle(&mut self, session_id: u64, update_seq: u64, outcome: PushOutcome, targets: &[Mode]) -> (r:
        SettleOutcome)
        requires
            old(self).wf(),
        ensures
            final(self).wf(),
            r == old(self)@.dev.table.settle_outcome(
                session_id,
                update_seq,
                outcome.reported(),
                targets@,
            ),
            final(self)@ == (ShellModel {
                dev: old(self)@.dev.with_table(
                    old(self)@.dev.table.after_settle(
                        session_id,
                        update_seq,
                        outcome.reported(),
                        targets@,
                    ),
                ),
                ..old(self)@
            }),
    {
        let r = self.dev.table.settle_modes(
            session_id,
            update_seq,
            outcome.settle_result(),
            targets,
        );
        proof {
            self.dev.table.lemma_wf();
        }
        r
    }
}

/// Take out every attached monitor for a recovery, in ascending order of session. Each
/// is to be made to depart and reported with `Shell::departed`.
pub fn duck_all(shell: &mut Shell) -> (r: Vec<LiveMonitor>)
    requires
        old(shell).wf(),
    ensures
        final(shell).wf(),
        final(shell)@ == (ShellModel {
            monitors: SetModel { live: Map::empty(), ..old(shell)@.monitors },
            ..old(shell)@
        }),
        r@.map_values(|m: LiveMonitor| m@) == sorted_ids(old(shell)@.monitors.live.dom()).map_values(
            |s: u64| old(shell)@.monitors.live[s],
        ),
        forall|i: int| 0 <= i < r@.len() ==> (#[trigger] r@[i])@.spec.wf(),
{
    shell.monitors.take_all()
}

/// Take out the attached monitors of some sessions for a recovery, in the order given.
/// Sessions without an attached monitor are passed over.
pub fn duck_sessions(shell: &mut Shell, sessions: &[u64]) -> (r: Vec<LiveMonitor>)
    requires
        old(shell).wf(),
    ensures
        final(shell).wf(),
        final(shell)@ == (ShellModel {
            monitors: SetModel {
                live: old(shell)@.monitors.live.remove_keys(sessions@.to_set()),
                ..old(shell)@.monitors
            },
            ..old(shell)@
        }),
        r@.map_values(|m: LiveMonitor| m@) == crate::shell::monitors::taken_in_order(
            old(shell)@.monitors.live,
            sessions@,
        ),
        forall|i: int| 0 <= i < r@.len() ==> (#[trigger] r@[i])@.spec.wf(),
{
    shell.monitors.take_sessions(sessions)
}

/// Nothing is admitted on a handle that was not opened by an authorized opener, and
/// such a handle can only be had through the control interface.
pub proof fn law_unauthorized_handles_are_denied(s: ShellModel, file: u64, code: u32)
    ensures
        !s.authorized(file) ==> s.admission(file, code) == Admission::Denied,
        s.admission(file, code) == Admission::Go ==> s.authorized(file) && (needs_adapter(code)
            ==> s.adapter is Some),
{
}

/// A recovery brings every monitor back as it was. Take all of them out, make each
/// depart: what the next replug hands out is every monitor parked before and every
/// monitor that was attached, with all it describes and publishes, and no session is any
/// the wiser.
pub proof fn law_recovery_brings_monitors_back(s: ShellModel)
    requires
        s.monitors.wf(),
    ensures
        ({
            let live = s.monitors.live;
            let taken = sorted_ids(live.dom()).map_values(|x: u64| live[x]);
            let out = ShellModel { monitors: SetModel { live: Map::empty(), ..s.monitors }, ..s };
            let ducked = out.all_departed(taken);
            &&& ducked.monitors.parked == s.monitors.parked + taken.map_values(|m: LiveModel| m.spec)
            &&& ducked.monitors.live == Map::<u64, LiveModel>::empty()
            &&& ducked.dev.table == s.dev.table
            &&& ducked.epoch == s.epoch
            &&& forall|x: u64| #[trigger] live.dom().contains(x) ==> ducked.monitors.parked.contains(live[x].spec)
        }),
{
    let live = s.monitors.live;
    let ids = sorted_ids(live.dom());
    let taken = ids.map_values(|x: u64| live[x]);
    let out = ShellModel { monitors: SetModel { live: Map::empty(), ..s.monitors }, ..s };
    lemma_all_departed(out, taken);
    lemma_sorted_exists(live.dom());
    let specs = taken.map_values(|m: LiveModel| m.spec);
    let parked = s.monitors.parked + specs;
    assert forall|x: u64| #[trigger] live.dom().contains(x) implies parked.contains(live[x].spec) by {
        assert(ids.to_set().contains(x));
        let k = choose|k: int| 0 <= k < ids.len() && ids[k] == x;
        assert(specs[k] == live[x].spec);
        assert(parked[s.monitors.parked.len() + k] == live[x].spec);
    }
}

proof fn lemma_all_departed(s: ShellModel, ms: Seq<LiveModel>)
    ensures
        s.all_departed(ms).monitors.parked == s.monitors.parked + ms.map_values(
            |m: LiveModel| m.spec,
        ),
        s.all_departed(ms).monitors.live == s.monitors.live,
        s.all_departed(ms).dev.table == s.dev.table,
        s.all_departed(ms).epoch == s.epoch,
        s.all_departed(ms).adapter == s.adapter,
        s.all_departed(ms).duck_cycles == s.duck_cycles,
    decreases ms.len(),
{
    let specs = ms.map_values(|m: LiveModel| m.spec);
    if ms.len() > 0 {
        lemma_all_departed(s, ms.drop_last());
        assert(specs =~= ms.drop_last().map_values(|m: LiveModel| m.spec).push(ms.last().spec));
        assert(s.all_departed(ms).monitors.parked =~= s.monitors.parked + specs);
    } else {
        assert(s.monitors.parked + specs =~= s.monitors.parked);
    }
}

/// Recoveries are bounded: however many are tried and whatever departs in them, under one
/// adapter no more than `cap` are counted, and each of the first `cap` is. Only the loss
/// of the adapter starts the count over.
pub proof fn law_recoveries_are_bounded(
    s: ShellModel,
    cap: u32,
    rounds: Seq<Seq<LiveModel>>,
    device: u64,
)
    requires
        s.duck_cycles == 0,
        s.epoch < u64::MAX,
    ensures
        ({
            let n = s.cycles(cap, rounds);
            &&& n.epoch == s.epoch
            &&& n.duck_cycles == (if rounds.len() <= cap {
                rounds.len() as int
            } else {
                cap as int
            })
            &&& n.without_adapter().duck_cycles == 0 && n.without_adapter().epoch != n.epoch
            &&& n.torn_down(device).duck_cycles == 0 && n.torn_down(device).epoch != n.epoch
        }),
    decreases rounds.len(),
{
    if rounds.len() > 0 {
        law_recoveries_are_bounded(s, cap, rounds.drop_last(), device);
        let before = s.cycles(cap, rounds.drop_last());
        lemma_all_departed(before.cycle_counted(cap), rounds.last());
    }
}

/// A final teardown that lands while monitors depart for a recovery leaves no ghosts:
/// whatever was parked before it and whatever is parked after it, nothing is attached or
/// parked once the recovery has finished, and nothing can be replugged.
pub proof fn law_teardown_leaves_no_ghosts(s: ShellModel, device: u64, late: Seq<LiveModel>)
    requires
        s.epoch < u64::MAX,
    ensures
        ({
            let end = s.torn_down(device).all_departed(late).duck_finished(s.epoch);
            &&& s.torn_down(device).monitors.parked.len() == 0
            &&& end.monitors.parked.len() == 0
            &&& end.monitors.live == Map::<u64, LiveModel>::empty()
            &&& end.adapter is None
        }),
{
    lemma_all_departed(s.torn_down(device), late);
}

/// An adapter that was begun before a teardown is never published after it.
pub proof fn law_stale_adapter_is_never_published(s: ShellModel, epoch: u64)
    requires
        s.epoch < u64::MAX,
        epoch <= s.epoch,
    ensures
        s.without_adapter().adapter is None,
        s.without_adapter().epoch != epoch,
{
}

/// Which requests are admitted, with the codes written out: none on a handle without
/// rights, and before the adapter is up neither creating nor destroying a monitor nor
/// setting the pool.
pub proof fn law_admission_cases(s: ShellModel, file: u64, code: u32)
    ensures
        ({
            let a = s.admission(file, code);
            let allowed = s.handles.dom().contains(file) && s.handles[file].authorized;
            let waits = code == 0x22_2004 || code == 0x22_2008 || code == 0x22_201C;
            &&& a is Denied <==> !allowed
            &&& a is NotReady <==> allowed && waits && s.adapter is None
            &&& a is Go <==> allowed && (!waits || s.adapter is Some)
        }),
{
}

/// How requests are completed: a success with the bytes that were written, a bad buffer
/// and an unknown code with their own status and none.
pub proof fn law_completion_values(bytes: nat)
    ensures
        completion_of(Status::Success, bytes) == (0i32, bytes),
        completion_of(Status::BadBuffer, bytes).0 == -1073741811,
        completion_of(Status::BadBuffer, bytes).1 == 0,
        completion_of(Status::UnknownCode, bytes).0 == -1073741808,
        completion_of(Status::UnknownCode, bytes).1 == 0,
        STATUS_ACCESS_DENIED == -1073741790,
        STATUS_DEVICE_NOT_READY == -1073741661,
{
}

/// Which file names are that of the control interface: seventeen units, behind a backslash
/// or not, that spell LUMINALVGDCONTROL when lowercase letters are raised.
pub proof fn law_control_name(name: Seq<u16>)
    ensures
        ({
            let skip = if name.len() > 0 && name[0] == 0x5C {
                1int
            } else {
                0
            };
            let text = seq![
                0x4Cu16, 0x55, 0x4D, 0x49, 0x4E, 0x41, 0x4C, 0x56, 0x47, 0x44, 0x43, 0x4F, 0x4E,
                0x54, 0x52, 0x4F, 0x4C,
            ];
            names_control(name) <==> name.len() == 17 + skip && forall|i: int|
                0 <= i < 17 ==> (if 0x61 <= name[skip + i] <= 0x7A {
                    name[skip + i] - 0x20
                } else {
                    name[skip + i] as int
                }) == #[trigger] text[i]
        }),
{
    reveal_strlit("LuminalVGDControl");
    let skip = if name.len() > 0 && name[0] == 0x5C {
        1int
    } else {
        0
    };
    let bare = if name.len() > 0 && name[0] == 0x5C {
        name.skip(1)
    } else {
        name
    };
    let text = seq![
        0x4Cu16, 0x55, 0x4D, 0x49, 0x4E, 0x41, 0x4C, 0x56, 0x47, 0x44, 0x43, 0x4F, 0x4E,
        0x54, 0x52, 0x4F, 0x4C,
    ];
    let (x, y) = (
        bare.map_values(|c: u16| folded(c)),
        control_units().map_values(|c: u16| folded(c)),
    );
    assert(y =~= text);
    assert forall|i: int| 0 <= i < bare.len() implies bare[i] == #[trigger] name[skip + i] by {}
    if names_control(name) {
        assert(x.len() == 17);
        assert forall|i: int| 0 <= i < 17 implies (if 0x61 <= name[skip + i] <= 0x7A {
            name[skip + i] - 0x20
        } else {
            name[skip + i] as int
        }) == #[trigger] text[i] by {
            assert(x[i] == y[i]);
            assert(bare[i] == name[skip + i]);
        }
    }
    if name.len() == 17 + skip && (forall|i: int|
        0 <= i < 17 ==> (if 0x61 <= name[skip + i] <= 0x7A {
            name[skip + i] - 0x20
        } else {
            name[skip + i] as int
        }) == #[trigger] text[i]) {
        assert forall|i: int| 0 <= i < 17 implies x[i] == y[i] by {
            assert(text[i] == y[i]);
            assert(bare[i] == name[skip + i]);
        }
        assert(x =~= y);
    }
}

/// A build stamp is read digit by digit: each one counts ten times less than the one
/// before it, and anything but a digit spoils the number.
pub proof fn law_decimal_step(digits: Seq<u8>, d: u8)
    ensures
        decimal_value(Seq::empty()) == Some(0nat),
        decimal_value(digits.push(d)) == (if 0x30 <= d <= 0x39 && decimal_value(digits) is Some {
            Some((10 * decimal_value(digits)->0 + (d - 0x30)) as nat)
        } else {
            None
        }),
{
    assert(digits.push(d).drop_last() =~= digits);
}

/// What a teardown leaves: no adapter, no device, no monitors attached or parked, nothing
/// committed as far as nobody holds the record, no session, the next epoch and a fresh
/// count. The pool, the configuration, the handles and the identities of stable displays
/// stay.
pub proof fn law_teardown_values(s: ShellModel, device: u64)
    requires
        s.epoch < u64::MAX,
        s.committed.state == 0,
        s.dev.table.monitors.dom().finite(),
    ensures
        ({
            let n = s.torn_down(device);
            &&& n.adapter is None
            &&& n.device is None
            &&& n.epoch == s.epoch + 1
            &&& n.duck_cycles == 0
            &&& n.monitors.live.dom().len() == 0
            &&& n.monitors.parked.len() == 0
            &&& n.committed.nothing_committed()
            &&& n.dev.token == n.committed.generation
            &&& n.dev.table.monitors.dom().len() == 0
            &&& n.dev.pool == s.dev.pool
            &&& n.dev.cfg == s.dev.cfg
            &&& n.handles == s.handles
            &&& n.recovering == s.recovering
            &&& n.pushes == s.pushes
            &&& n.started == (if s.started is Some && (s.started->0).device == device {
                None
            } else {
                s.started
            })
            &&& forall|x: u64| #[trigger]
                s.dev.table.connectors.reservations.dom().contains(x)
                    && !s.dev.table.throwaway_identities(s.dev.table.monitors.dom()).contains(x)
                    ==> n.dev.table.connectors.reservations.dom().contains(x)
        }),
{
    let n = s.torn_down(device);
    assert(n.dev.table.monitors.dom() =~= Set::<u64>::empty());
}

/// What the departure of a monitor changes: it is parked behind the others as it was, its
/// committed mode is forgotten and the token moves with the record. Losing the adapter
/// starts the next epoch and the count of recoveries over.
pub proof fn law_departure_values(s: ShellModel, m: LiveModel, cap: u32)
    requires
        s.epoch < u64::MAX,
    ensures
        ({
            let d = s.departed(m);
            let w = s.without_adapter();
            let c = s.cycle_counted(cap);
            &&& d.monitors.parked == s.monitors.parked.push(m.spec)
            &&& d.monitors.live == s.monitors.live
            &&& d.committed == s.committed.forgotten(m.handle)
            &&& d.dev.token == d.committed.generation
            &&& d.dev.table == s.dev.table
            &&& d.adapter == s.adapter && d.epoch == s.epoch && d.duck_cycles == s.duck_cycles
            &&& w.adapter is None && w.epoch == s.epoch + 1 && w.duck_cycles == 0
            &&& (ShellModel {
                adapter: s.adapter,
                epoch: s.epoch,
                duck_cycles: s.duck_cycles,
                ..w
            }) == s
            &&& c.duck_cycles == (if s.duck_cycles < cap {
                s.duck_cycles + 1
            } else {
                s.duck_cycles as int
            })
            &&& (ShellModel { duck_cycles: s.duck_cycles, ..c }) == s
        }),
{
}

/// What the driver claims and how long it waits, in numbers.
pub proof fn law_shell_values()
    ensures
        SHELL_CAPS == 1 + 4 + 32 + 64 + 128 + 256,
        UNSTAMPED_BUILD == 14,
        PUSH_DRAIN_DEADLINE_MS == 500,
{
    assert(128u32 | 256u32 | 1u32 | 4u32 | 32u32 | 64u32 == 485u32) by (bit_vector);
}

/// Only the letters a to z are raised, each by 32; every other unit stays.
pub proof fn law_fold_values(c: u16)
    ensures
        0x61 <= c <= 0x7A ==> folded(c) + 32 == c,
        c < 0x61 || c > 0x7A ==> folded(c) == c,
{
}

/// Whoever departs is parked in order behind those already parked, and takes only its own
/// committed mode along.
pub proof fn law_departures_in_order(s: ShellModel, ms: Seq<LiveModel>, next: LiveModel)
    ensures
        ({
            let before = s.all_departed(ms);
            let after = s.all_departed(ms.push(next));
            &&& s.all_departed(Seq::empty()) == s
            &&& after.monitors.parked == before.monitors.parked.push(next.spec)
            &&& after.monitors.live == s.monitors.live
            &&& after.committed == before.committed.forgotten(next.handle)
            &&& after.dev.token == after.committed.generation
            &&& after.dev.table == s.dev.table
        }),
{
    assert(ms.push(next).drop_last() =~= ms);
    lemma_all_departed(s, ms);
    lemma_all_departed(s, ms.push(next));
}

/// What decides about a push: without an adapter it is never made, a recovery defers it at
/// stage 3, and otherwise the attached monitor gets the call.
pub proof fn law_push_needs_the_adapter(s: ShellModel, session_id: u64, targets: Seq<Mode>)
    requires
        s.monitors.wf(),
        0 < targets.len() <= u32::MAX,
        forall|j: int|
            0 <= j < s.monitors.parked.len() ==> (#[trigger] s.monitors.parked[j]).session_id
                != session_id,
    ensures
        ({
            let r = s.push_step(session_id, targets);
            &&& s.recovering ==> r == PushStepModel::Done(
                PushOutcome::Deferred { stage: 3, count: targets.len() as u32 },
            )
            &&& !s.recovering && s.adapter is None ==> r == PushStepModel::Done(
                PushOutcome::Deferred { stage: 8, count: targets.len() as u32 },
            )
            &&& r is Call ==> !s.recovering && s.adapter is Some
                && s.monitors.live.dom().contains(session_id)
            &&& !s.recovering && s.adapter is Some && s.monitors.live.dom().contains(session_id)
                && s.committed.mode_on(s.monitors.live[session_id].handle) is None
                && (forall|i: int|
                0 <= i < targets.len() ==> s.monitors.live[session_id].spec.monitor_modes.contains(
                    #[trigger] targets[i],
                )) ==> r is Call && r->handle == s.monitors.live[session_id].handle
        }),
{
    monitors::law_push_step_cases(
        s.monitors,
        session_id,
        targets,
        s.recovering,
        s.adapter is Some,
        s.committed,
    );
}

} // verus!
