//! The daemon: what each event and each tick does to its state.
//!
//! A tick runs in three steps: [`DaemonState::begin_tick`] looks at the override file and at the
//! weather, [`DaemonState::target_temperature`] picks the temperature, and
//! [`DaemonState::end_tick`] records whether the screens took it. The curves between two
//! temperatures are drawn outside and handed in.
use vstd::prelude::*;

use crate::abraxas::config;
use crate::abraxas::config::{OverrideState, WeatherData};
use crate::abraxas::sigmoid;
use crate::abraxas::solar::SunTimes;
use crate::abraxas::uring;
use crate::abraxas::uring::{AbraxasRing, IoUringCqe, IoUringSqe};
use crate::abraxas::weather::{FetchError, FetchPhase, FetchState};

verus! {

/// Seconds between two ticks.
pub const TEMP_UPDATE_SEC: i64 = 60;

/// Ticks to aim for during a manual transition.
pub const MANUAL_TARGET_SAMPLES: i64 = 36;

/// Seconds that a change of the cloud cover takes to show.
pub const CLOUD_TRANSITION_SEC: i64 = 600;

pub const GAMMA_INIT_MAX_RETRIES: i32 = 60;

pub const GAMMA_INIT_RETRY_MS: u64 = 500;

/// Bytes of an inotify event before its name.
pub const EVENT_HEADER_SIZE: usize = 16;

/// What woke the daemon.
#[derive(Debug, Clone, Copy, PartialEq, Eq, Structural)]
pub struct EventFlags {
    pub timer: bool,
    pub signal: bool,
    pub weather: bool,
    pub override_file: bool,
    pub config_file: bool,
}

/// Which multi-shot polls are alive.
#[derive(Debug, Clone, Copy, PartialEq, Eq, Structural)]
pub struct PollState {
    pub inotify: bool,
    pub signal: bool,
    pub weather: bool,
}

/// Which of the watched files an inotify buffer speaks of.
#[derive(Debug, Clone, Copy, PartialEq, Eq, Structural)]
pub struct FileChanges {
    pub override_file: bool,
    pub config_file: bool,
}

/// The daemon's state between ticks, apart from its handles and the cloud curve.
#[derive(Debug, Clone, Copy, PartialEq, Eq, Structural)]
pub struct DaemonState {
    pub manual_mode: bool,
    pub manual_start_temp: i32,
    pub manual_target_temp: i32,
    pub manual_start_time: i64,
    pub manual_duration_min: i32,
    pub manual_issued_at: i64,
    /// The solar curve cannot cross the target before this; 0 where nothing is held.
    pub catch_up_check_after: i64,
    pub last_temp: i32,
    pub last_temp_valid: bool,
    /// When the running cloud transition began; 0 where none runs.
    pub cloud_transition_start: i64,
    pub cloud_dark: bool,
}

/// What to do with the override file.
#[derive(Debug, Clone, Copy, PartialEq, Eq, Structural)]
pub enum OverrideFile {
    Keep,
    /// Write it back, its start temperature filled in.
    Save(OverrideState),
    Remove,
}

/// What the cloud curve does in this tick.
#[derive(Debug, Clone, Copy, PartialEq, Eq, Structural)]
pub enum CloudStep {
    /// No transition runs: the factor stays.
    Settled,
    /// A transition has run for `elapsed` seconds. Where it is `fresh`, the factor at its start is
    /// the present one.
    Moving { fresh: bool, elapsed: i64 },
    /// A transition is over: the factor is that of its end.
    Arrived,
}

/// The temperature of a tick.
#[derive(Debug, Clone, Copy, PartialEq, Eq, Structural)]
pub struct Target {
    pub temp: i32,
    /// The solar curve has reached a held override: the override file goes.
    pub caught_up: bool,
}

/// What follows the events of one wait.
#[derive(Debug, Clone, Copy, PartialEq, Eq, Structural)]
pub enum LoopStep {
    Stop,
    Tick { override_changed: bool, config_changed: bool },
}

/// What a failed attempt to find a gamma backend leads to.
#[derive(Debug, Clone, Copy, PartialEq, Eq, Structural)]
pub enum RetryStep {
    GiveUp,
    /// A shutdown was asked for meanwhile.
    Leave,
    SleepMs(u64),
}

// --- inotify ---

/// The bytes before the first zero.
pub open spec fn until_zero(s: Seq<u8>) -> Seq<u8>
    decreases s.len(),
{
    if s.len() == 0 || s[0] == 0 {
        Seq::empty()
    } else {
        seq![s[0]] + until_zero(s.skip(1))
    }
}

/// The little-endian number at `at`.
pub open spec fn u32_at(s: Seq<u8>, at: int) -> int {
    s[at] + s[at + 1] * 0x100 + s[at + 2] * 0x1_0000 + s[at + 3] * 0x100_0000
}

/// Whether some event of the buffer, from `at` on, names `file`. Events lie one behind the other:
/// a header whose last four bytes give the length of what follows, and a name padded with zeros.
/// A cut-off event ends the buffer.
pub open spec fn names_file(buf: Seq<u8>, at: int, file: Seq<u8>) -> bool
    decreases buf.len() - at,
{
    if at < 0 || at + EVENT_HEADER_SIZE > buf.len() {
        false
    } else {
        let len = u32_at(buf, at + 12);
        let end = at + EVENT_HEADER_SIZE + len;
        if end > buf.len() || len < 0 {
            false
        } else {
            ||| len > 0 && until_zero(buf.subrange(at + EVENT_HEADER_SIZE, end)) == file
            ||| names_file(buf, end, file)
        }
    }
}

fn read_u32(buf: &[u8], at: usize) -> (r: u32)
    requires
        at + 4 <= buf@.len(),
    ensures
        r == u32_at(buf@, at as int),
{
    buf[at] as u32 + buf[at + 1] as u32 * 0x100 + buf[at + 2] as u32 * 0x1_0000 + buf[at
        + 3] as u32 * 0x100_0000
}

proof fn lemma_until_zero(s: Seq<u8>, n: int)
    requires
        0 <= n <= s.len(),
        forall|i: int| 0 <= i < n ==> s[i] != 0,
        n == s.len() || s[n] == 0,
    ensures
        until_zero(s) == s.take(n),
    decreases n,
{
    if n == 0 {
        assert(s.take(0) =~= Seq::empty());
    } else {
        let t = s.skip(1);
        assert forall|i: int| 0 <= i < n - 1 implies t[i] != 0 by {
            assert(t[i] == s[i + 1]);
        }
        lemma_until_zero(t, n - 1);
        assert(s.take(n) =~= seq![s[0]] + t.take(n - 1));
    }
}

/// Whether the bytes `from..to`, up to the first zero, are `name`.
fn is_name(buf: &[u8], from: usize, to: usize, name: &[u8]) -> (r: bool)
    requires
        from <= to <= buf@.len(),
    ensures
        r == (until_zero(buf@.subrange(from as int, to as int)) == name@),
{
    let ghost field = buf@.subrange(from as int, to as int);
    let mut n: usize = 0;
    while n < to - from && buf[from + n] != 0
        invariant
            from <= to <= buf@.len(),
            n <= to - from,
            field == buf@.subrange(from as int, to as int),
            forall|i: int| 0 <= i < n ==> field[i] != 0,
        decreases to - from - n,
    {
        n += 1;
    }
    proof {
        lemma_until_zero(field, n as int);
    }
    if n != name.len() {
        return false;
    }
    let mut i: usize = 0;
    while i < n
        invariant
            from <= to <= buf@.len(),
            i <= n <= to - from,
            n == name@.len(),
            field == buf@.subrange(from as int, to as int),
            until_zero(field) == field.take(n as int),
            forall|j: int| 0 <= j < i ==> field[j] == name@[j],
        decreases n - i,
    {
        if buf[from + i] != name[i] {
            assert(field.take(n as int)[i as int] != name@[i as int]);
            return false;
        }
        i += 1;
    }
    assert(field.take(n as int) =~= name@);
    true
}

/// Which watched files an inotify buffer names.
pub fn parse_inotify_events(buf: &[u8], override_name: &[u8], config_name: &[u8]) -> (r: FileChanges)
    ensures
        r.override_file == names_file(buf@, 0, override_name@),
        r.config_file == names_file(buf@, 0, config_name@),
{
    let mut changes = FileChanges { override_file: false, config_file: false };
    let mut offset: usize = 0;
    while buf.len() - offset >= EVENT_HEADER_SIZE
        invariant_except_break
            offset <= buf@.len(),
            names_file(buf@, 0, override_name@) == (changes.override_file || names_file(
                buf@,
                offset as int,
                override_name@,
            )),
            names_file(buf@, 0, config_name@) == (changes.config_file || names_file(
                buf@,
                offset as int,
                config_name@,
            )),
        ensures
            changes.override_file == names_file(buf@, 0, override_name@),
            changes.config_file == names_file(buf@, 0, config_name@),
        decreases buf@.len() - offset,
    {
        let name_len = read_u32(buf, offset + 12) as usize;
        if name_len > buf.len() - offset - EVENT_HEADER_SIZE {
            break;
        }
        let start = offset + EVENT_HEADER_SIZE;
        let end = start + name_len;
        if name_len > 0 {
            if is_name(buf, start, end, override_name) {
                changes.override_file = true;
            }
            if is_name(buf, start, end, config_name) {
                changes.config_file = true;
            }
        }
        offset = end;
    }
    changes
}

// --- completions ---

pub open spec fn no_events() -> EventFlags {
    EventFlags {
        timer: false,
        signal: false,
        weather: false,
        override_file: false,
        config_file: false,
    }
}

/// What the events of a wait lead to.
pub open spec fn step_after(events: EventFlags) -> LoopStep {
    if events.signal {
        LoopStep::Stop
    } else {
        LoopStep::Tick {
            override_changed: events.override_file,
            config_changed: events.config_file,
        }
    }
}

impl EventFlags {
    pub fn new() -> (r: EventFlags)
        ensures
            r == no_events(),
    {
        EventFlags {
            timer: false,
            signal: false,
            weather: false,
            override_file: false,
            config_file: false,
        }
    }

    /// What to do once every completion has been handled: stop on a signal, else tick.
    pub fn next_step(&self) -> (r: LoopStep)
        ensures
            r == if self.signal {
                LoopStep::Stop
            } else {
                LoopStep::Tick {
                    override_changed: self.override_file,
                    config_changed: self.config_file,
                }
            },
            r == step_after(*self),
    {
        if self.signal {
            LoopStep::Stop
        } else {
            LoopStep::Tick {
                override_changed: self.override_file,
                config_changed: self.config_file,
            }
        }
    }
}

/// The poll of a completion lives on.
pub open spec fn more_follow(cqe: IoUringCqe) -> bool {
    cqe.flags & uring::IORING_CQE_F_MORE != 0
}

/// The completion says that inotify events can be read.
pub open spec fn inotify_ready(cqe: IoUringCqe) -> bool {
    cqe.user_data == uring::EV_INOTIFY && cqe.res > 0
}

/// The events after a completion; `files` is what was read of inotify.
pub open spec fn events_after(
    events: EventFlags,
    cqe: IoUringCqe,
    files: FileChanges,
) -> EventFlags {
    EventFlags {
        timer: events.timer || cqe.user_data == uring::EV_TIMEOUT,
        signal: events.signal || cqe.user_data == uring::EV_SIGNAL,
        weather: events.weather || (cqe.user_data == uring::EV_WEATHER && cqe.res > 0),
        override_file: events.override_file || (inotify_ready(cqe) && files.override_file),
        config_file: events.config_file || (inotify_ready(cqe) && files.config_file),
    }
}

/// The polls after a completion: one that ended its poll leaves it dead.
pub open spec fn polls_after(polls: PollState, cqe: IoUringCqe) -> PollState {
    PollState {
        inotify: polls.inotify && (cqe.user_data != uring::EV_INOTIFY || more_follow(cqe)),
        signal: polls.signal && (cqe.user_data != uring::EV_SIGNAL || more_follow(cqe)),
        weather: polls.weather && (cqe.user_data != uring::EV_WEATHER || more_follow(cqe)),
    }
}

/// Whether inotify is to be read before the completion is processed.
pub fn wants_inotify_read(cqe: &IoUringCqe) -> (r: bool)
    ensures
        r == inotify_ready(*cqe),
{
    cqe.user_data == uring::EV_INOTIFY && cqe.res > 0
}

/// Handles one completion. `files` is read only where [`wants_inotify_read`] asked for it.
pub fn process_cqe(
    cqe: &IoUringCqe,
    events: &mut EventFlags,
    polls: &mut PollState,
    files: FileChanges,
)
    ensures
        *final(events) == events_after(*old(events), *cqe, files),
        *final(polls) == polls_after(*old(polls), *cqe),
{
    let more = cqe.flags & uring::IORING_CQE_F_MORE != 0;
    if cqe.user_data == uring::EV_TIMEOUT {
        events.timer = true;
    } else if cqe.user_data == uring::EV_SIGNAL {
        events.signal = true;
        if !more {
            polls.signal = false;
        }
    } else if cqe.user_data == uring::EV_INOTIFY {
        if cqe.res > 0 {
            events.override_file = events.override_file || files.override_file;
            events.config_file = events.config_file || files.config_file;
        }
        if !more {
            polls.inotify = false;
        }
    } else if cqe.user_data == uring::EV_WEATHER {
        if cqe.res > 0 {
            events.weather = true;
        }
        if !more {
            polls.weather = false;
        }
    }
}

// --- submissions ---

/// The entries that wait after `sqe` too was handed to a ring of `entries` slots.
pub open spec fn queued(pending: Seq<IoUringSqe>, entries: int, sqe: IoUringSqe) -> Seq<IoUringSqe> {
    if pending.len() < entries {
        pending.push(sqe)
    } else {
        pending
    }
}

/// The same for a poll that is wanted where `wanted`.
pub open spec fn polled(
    pending: Seq<IoUringSqe>,
    entries: int,
    wanted: bool,
    fd: i32,
    tag: u64,
) -> Seq<IoUringSqe> {
    if wanted {
        queued(pending, entries, uring::poll_sqe(fd, tag))
    } else {
        pending
    }
}

/// The entries that wait once the daemon is ready to sleep: a poll for each open descriptor
/// without a live one, and the timeout.
pub open spec fn armed(
    pending: Seq<IoUringSqe>,
    entries: int,
    polls: PollState,
    ino_fd: i32,
    signal_fd: i32,
    weather_fd: Option<i32>,
    ts_addr: u64,
) -> Seq<IoUringSqe> {
    let p1 = polled(pending, entries, ino_fd >= 0 && !polls.inotify, ino_fd, uring::EV_INOTIFY);
    let p2 = polled(p1, entries, signal_fd >= 0 && !polls.signal, signal_fd, uring::EV_SIGNAL);
    let p3 = match weather_fd {
        Some(fd) => polled(p2, entries, !polls.weather, fd, uring::EV_WEATHER),
        None => p2,
    };
    queued(p3, entries, uring::timeout_sqe(ts_addr, uring::EV_TIMEOUT))
}

/// Registers the polls that are not alive, and a fresh timeout. `weather_fd` is the pipe of a
/// running weather fetch.
pub fn arm(
    ring: &mut AbraxasRing,
    polls: &mut PollState,
    ino_fd: i32,
    signal_fd: i32,
    weather_fd: Option<i32>,
    ts_addr: u64,
)
    requires
        old(ring).wf(),
    ensures
        final(ring).wf(),
        final(ring).same_completions(old(ring)),
        final(ring).sq_head == old(ring).sq_head,
        final(ring).sq_entries == old(ring).sq_entries,
        final(ring).pending() == armed(
            old(ring).pending(),
            old(ring).sq_entries as int,
            *old(polls),
            ino_fd,
            signal_fd,
            weather_fd,
            ts_addr,
        ),
        *final(polls) == (PollState {
            inotify: old(polls).inotify || ino_fd >= 0,
            signal: old(polls).signal || signal_fd >= 0,
            weather: old(polls).weather || weather_fd is Some,
        }),
{
    if ino_fd >= 0 && !polls.inotify {
        ring.prep_poll(ino_fd, uring::EV_INOTIFY);
        polls.inotify = true;
    }
    if signal_fd >= 0 && !polls.signal {
        ring.prep_poll(signal_fd, uring::EV_SIGNAL);
        polls.signal = true;
    }
    if let Some(fd) = weather_fd {
        if !polls.weather {
            ring.prep_poll(fd, uring::EV_WEATHER);
            polls.weather = true;
        }
    }
    ring.prep_timeout(ts_addr, uring::EV_TIMEOUT);
}

/// Cancels the timeout where the daemon woke before it. The result says whether it did.
pub fn cancel_timeout(ring: &mut AbraxasRing, events: &EventFlags) -> (r: bool)
    requires
        old(ring).wf(),
    ensures
        r == !events.timer,
        r ==> AbraxasRing::submitted(
            old(ring),
            final(ring),
            uring::cancel_sqe(uring::EV_TIMEOUT, uring::EV_CANCEL),
        ),
        !r ==> *final(ring) == *old(ring),
{
    if events.timer {
        return false;
    }
    ring.prep_cancel(uring::EV_TIMEOUT, uring::EV_CANCEL);
    true
}

// --- ticks ---

/// Whether an override made the screen darker, or left it as it was.
pub open spec fn darkened(s: DaemonState) -> bool {
    s.manual_start_temp >= s.manual_target_temp
}

/// The state that follows an active override, which began at `start_temp`.
pub open spec fn adopted(
    s: DaemonState,
    o: OverrideState,
    start_temp: i32,
    now: int,
    today: Option<SunTimes>,
    tomorrow: Option<SunTimes>,
) -> DaemonState {
    DaemonState {
        manual_mode: true,
        manual_start_temp: start_temp,
        manual_target_temp: o.target_temp,
        manual_start_time: o.issued_at,
        manual_duration_min: o.duration_minutes,
        manual_issued_at: o.issued_at,
        catch_up_check_after: sigmoid::next_window(
            now,
            today,
            tomorrow,
            start_temp >= o.target_temp,
        ) as i64,
        ..s
    }
}

/// The state back under solar control.
pub open spec fn released(s: DaemonState) -> DaemonState {
    DaemonState { manual_mode: false, manual_issued_at: 0, catch_up_check_after: 0, ..s }
}

/// Whether an override file brings an override that the daemon does not follow yet.
pub open spec fn is_news(s: DaemonState, o: OverrideState) -> bool {
    o.active && (!s.manual_mode || o.issued_at != s.manual_issued_at)
}

/// Where an override that is issued now begins: at the temperature last shown, or at its target
/// where none was.
pub open spec fn start_of(s: DaemonState, o: OverrideState) -> i32 {
    if s.last_temp_valid {
        s.last_temp
    } else {
        o.target_temp
    }
}

/// The state after a look at the override file. A missing file changes nothing.
pub open spec fn after_override(
    s: DaemonState,
    file: Option<OverrideState>,
    now: int,
    today: Option<SunTimes>,
    tomorrow: Option<SunTimes>,
) -> DaemonState {
    match file {
        None => s,
        Some(o) => if is_news(s, o) {
            adopted(s, o, start_of(s, o), now, today, tomorrow)
        } else if !o.active && s.manual_mode {
            released(s)
        } else {
            s
        },
    }
}

/// What becomes of the override file then.
pub open spec fn override_file_after(s: DaemonState, file: Option<OverrideState>) -> OverrideFile {
    match file {
        None => OverrideFile::Keep,
        Some(o) => if is_news(s, o) && o.start_temp == 0 {
            OverrideFile::Save(OverrideState { start_temp: start_of(s, o), ..o })
        } else if !o.active && s.manual_mode {
            OverrideFile::Remove
        } else {
            OverrideFile::Keep
        },
    }
}

/// Where an override of an earlier run began: as it says, else at the solar temperature.
pub open spec fn recovered_start(o: OverrideState, solar: i32) -> i32 {
    if o.start_temp != 0 {
        o.start_temp
    } else {
        solar
    }
}

/// The state after a restart finds `file`.
pub open spec fn after_recovery(
    s: DaemonState,
    file: Option<OverrideState>,
    solar: i32,
    now: int,
    today: Option<SunTimes>,
    tomorrow: Option<SunTimes>,
) -> DaemonState {
    match file {
        Some(o) => if o.active {
            adopted(s, o, recovered_start(o, solar), now, today, tomorrow)
        } else {
            s
        },
        None => s,
    }
}

/// The state after a look at the weather.
pub open spec fn after_clouds(s: DaemonState, cloud_now: bool, now: int) -> DaemonState {
    let turned = if cloud_now != s.cloud_dark {
        DaemonState { cloud_dark: cloud_now, cloud_transition_start: now as i64, ..s }
    } else {
        s
    };
    if turned.cloud_transition_start > 0 && now - turned.cloud_transition_start
        >= CLOUD_TRANSITION_SEC {
        DaemonState { cloud_transition_start: 0, ..turned }
    } else {
        turned
    }
}

/// What the cloud curve does then.
pub open spec fn cloud_step(s: DaemonState, cloud_now: bool, now: int) -> CloudStep {
    let fresh = cloud_now != s.cloud_dark;
    let start: int = if fresh {
        now
    } else {
        s.cloud_transition_start as int
    };
    if start <= 0 {
        CloudStep::Settled
    } else if now - start >= CLOUD_TRANSITION_SEC {
        CloudStep::Arrived
    } else {
        CloudStep::Moving { fresh, elapsed: (now - start) as i64 }
    }
}

/// The solar curve has reached or crossed the held target.
pub open spec fn crossed(s: DaemonState, solar: int) -> bool {
    if darkened(s) {
        solar <= s.manual_target_temp
    } else {
        solar >= s.manual_target_temp
    }
}

/// The override ends: its transition is over, the solar curve moves, and it has reached the
/// target.
pub open spec fn catches_up(s: DaemonState, now: int, solar: int) -> bool {
    &&& s.manual_mode
    &&& sigmoid::transition_over(s.manual_start_time as int, s.manual_duration_min as int, now)
    &&& s.catch_up_check_after > 0
    &&& now >= s.catch_up_check_after
    &&& crossed(s, solar)
}

/// The temperature of the tick. `ramp` is the point of the manual curve at this instant.
pub open spec fn tick_temp(s: DaemonState, now: int, ramp: int, solar: int) -> int {
    if !s.manual_mode || catches_up(s, now, solar) {
        solar
    } else {
        sigmoid::manual_temp(
            s.manual_target_temp as int,
            s.manual_start_time as int,
            s.manual_duration_min as int,
            now,
            ramp,
        )
    }
}

/// Seconds until the next tick.
pub open spec fn tick_seconds(s: DaemonState, now: int) -> int {
    if !s.manual_mode || s.manual_duration_min <= 0 || sigmoid::transition_over(
        s.manual_start_time as int,
        s.manual_duration_min as int,
        now,
    ) {
        TEMP_UPDATE_SEC as int
    } else {
        let sec = s.manual_duration_min as int * 60 / MANUAL_TARGET_SAMPLES as int;
        if sec < 1 {
            1
        } else if sec > TEMP_UPDATE_SEC {
            TEMP_UPDATE_SEC as int
        } else {
            sec
        }
    }
}

/// The screens show `temp`.
pub open spec fn shows(s: DaemonState, temp: i32) -> bool {
    s.last_temp_valid && s.last_temp == temp
}

/// The state once the screens took `temp`.
pub open spec fn after_shown(s: DaemonState, temp: i32) -> DaemonState {
    DaemonState { last_temp: temp, last_temp_valid: true, ..s }
}

impl DaemonState {
    /// The times that it holds lie within the clock's range.
    pub open spec fn wf(&self) -> bool {
        &&& sigmoid::clock_in_range(self.manual_start_time)
        &&& sigmoid::clock_in_range(self.cloud_transition_start)
    }

    /// The state at start-up, under solar control, with the clouds settled.
    pub fn new(cloud_dark: bool) -> (r: DaemonState)
        ensures
            r == (DaemonState {
                manual_mode: false,
                manual_start_temp: 0,
                manual_target_temp: 0,
                manual_start_time: 0,
                manual_duration_min: 0,
                manual_issued_at: 0,
                catch_up_check_after: 0,
                last_temp: 0,
                last_temp_valid: false,
                cloud_transition_start: 0,
                cloud_dark,
            }),
            r.wf(),
    {
        DaemonState {
            manual_mode: false,
            manual_start_temp: 0,
            manual_target_temp: 0,
            manual_start_time: 0,
            manual_duration_min: 0,
            manual_issued_at: 0,
            catch_up_check_after: 0,
            last_temp: 0,
            last_temp_valid: false,
            cloud_transition_start: 0,
            cloud_dark,
        }
    }

    fn adopt(
        &mut self,
        o: OverrideState,
        start_temp: i32,
        now: i64,
        today: Option<SunTimes>,
        tomorrow: Option<SunTimes>,
    )
        requires
            sigmoid::clock_in_range(now),
            sigmoid::sun_in_range(today),
            sigmoid::sun_in_range(tomorrow),
        ensures
            *final(self) == adopted(*old(self), o, start_temp, now as int, today, tomorrow),
    {
        self.manual_mode = true;
        self.manual_target_temp = o.target_temp;
        self.manual_duration_min = o.duration_minutes;
        self.manual_start_time = o.issued_at;
        self.manual_issued_at = o.issued_at;
        self.manual_start_temp = start_temp;
        let darkened = start_temp >= o.target_temp;
        self.catch_up_check_after = sigmoid::next_solar_window_start(
            now,
            today,
            tomorrow,
            darkened,
        );
    }

    fn release(&mut self)
        ensures
            *final(self) == released(*old(self)),
    {
        self.manual_mode = false;
        self.manual_issued_at = 0;
        self.catch_up_check_after = 0;
    }

    /// Follows what the override file says after it changed.
    pub fn note_override(
        &mut self,
        file: Option<OverrideState>,
        now: i64,
        today: Option<SunTimes>,
        tomorrow: Option<SunTimes>,
    ) -> (r: OverrideFile)
        requires
            sigmoid::clock_in_range(now),
            sigmoid::sun_in_range(today),
            sigmoid::sun_in_range(tomorrow),
        ensures
            *final(self) == after_override(*old(self), file, now as int, today, tomorrow),
            r == override_file_after(*old(self), file),
    {
        let o = match file {
            Some(o) => o,
            None => return OverrideFile::Keep,
        };
        if o.active {
            if !self.manual_mode || o.issued_at != self.manual_issued_at {
                let start_temp = if self.last_temp_valid {
                    self.last_temp
                } else {
                    o.target_temp
                };
                self.adopt(o, start_temp, now, today, tomorrow);
                if o.start_temp == 0 {
                    return OverrideFile::Save(
                        OverrideState {
                            active: o.active,
                            target_temp: o.target_temp,
                            duration_minutes: o.duration_minutes,
                            issued_at: o.issued_at,
                            start_temp,
                        },
                    );
                }
            }
        } else if self.manual_mode {
            self.release();
            return OverrideFile::Remove;
        }
        OverrideFile::Keep
    }

    /// Takes up an active override of an earlier run. `solar` is the solar temperature now.
    pub fn recover_override(
        &mut self,
        file: Option<OverrideState>,
        solar: i32,
        now: i64,
        today: Option<SunTimes>,
        tomorrow: Option<SunTimes>,
    ) -> (r: OverrideFile)
        requires
            sigmoid::clock_in_range(now),
            sigmoid::sun_in_range(today),
            sigmoid::sun_in_range(tomorrow),
        ensures
            *final(self) == after_recovery(*old(self), file, solar, now as int, today, tomorrow),
            r == match file {
                Some(o) => if o.active && o.start_temp == 0 {
                    OverrideFile::Save(OverrideState { start_temp: solar, ..o })
                } else {
                    OverrideFile::Keep
                },
                None => OverrideFile::Keep,
            },
    {
        let o = match file {
            Some(o) => o,
            None => return OverrideFile::Keep,
        };
        if !o.active {
            return OverrideFile::Keep;
        }
        if o.start_temp != 0 {
            self.adopt(o, o.start_temp, now, today, tomorrow);
            return OverrideFile::Keep;
        }
        self.adopt(o, solar, now, today, tomorrow);
        OverrideFile::Save(
            OverrideState {
                active: true,
                target_temp: o.target_temp,
                duration_minutes: o.duration_minutes,
                issued_at: o.issued_at,
                start_temp: solar,
            },
        )
    }

    /// Starts a cloud transition where the weather turned, and ends one that is over.
    pub fn note_clouds(&mut self, cloud_now: bool, now: i64) -> (r: CloudStep)
        requires
            sigmoid::clock_in_range(now),
            sigmoid::clock_in_range(old(self).cloud_transition_start),
        ensures
            *final(self) == after_clouds(*old(self), cloud_now, now as int),
            r == cloud_step(*old(self), cloud_now, now as int),
    {
        let fresh = cloud_now != self.cloud_dark;
        if fresh {
            self.cloud_dark = cloud_now;
            self.cloud_transition_start = now;
        }
        if self.cloud_transition_start <= 0 {
            return CloudStep::Settled;
        }
        let elapsed = now - self.cloud_transition_start;
        if elapsed >= CLOUD_TRANSITION_SEC {
            self.cloud_transition_start = 0;
            return CloudStep::Arrived;
        }
        CloudStep::Moving { fresh, elapsed }
    }

    /// The first step of a tick. The override file counts only where `override_changed`;
    /// `weather` is the report that the daemon holds.
    pub fn begin_tick(
        &mut self,
        override_changed: bool,
        file: Option<OverrideState>,
        weather: &Option<WeatherData>,
        now: i64,
        today: Option<SunTimes>,
        tomorrow: Option<SunTimes>,
    ) -> (r: (OverrideFile, CloudStep))
        requires
            sigmoid::clock_in_range(now),
            sigmoid::sun_in_range(today),
            sigmoid::sun_in_range(tomorrow),
            sigmoid::clock_in_range(old(self).cloud_transition_start),
        ensures
            ({
                let seen = if override_changed {
                    file
                } else {
                    None
                };
                let noted = after_override(*old(self), seen, now as int, today, tomorrow);
                &&& *final(self) == after_clouds(noted, config::dark(*weather), now as int)
                &&& r.0 == override_file_after(*old(self), seen)
                &&& r.1 == cloud_step(noted, config::dark(*weather), now as int)
            }),
    {
        let kept = if override_changed {
            self.note_override(file, now, today, tomorrow)
        } else {
            OverrideFile::Keep
        };
        let step = self.note_clouds(config::is_dark(weather), now);
        (kept, step)
    }

    /// Whether the catch-up check looks at the solar temperature in this tick.
    pub fn checks_catch_up(&self, now: i64) -> (r: bool)
        requires
            i64::MIN <= now - self.manual_start_time <= i64::MAX,
        ensures
            r == (self.manual_mode && sigmoid::transition_over(
                self.manual_start_time as int,
                self.manual_duration_min as int,
                now as int,
            ) && self.catch_up_check_after > 0 && now >= self.catch_up_check_after),
    {
        self.manual_mode && sigmoid::is_transition_over(
            self.manual_start_time,
            self.manual_duration_min,
            now,
        ) && self.catch_up_check_after > 0 && now >= self.catch_up_check_after
    }

    /// Picks the temperature, and gives a held override up where the solar curve has reached it.
    pub fn target_temperature(&mut self, now: i64, ramp_temp: i32, solar_temp: i32) -> (r: Target)
        requires
            i64::MIN <= now - old(self).manual_start_time <= i64::MAX,
        ensures
            r.temp == tick_temp(*old(self), now as int, ramp_temp as int, solar_temp as int),
            r.caught_up == catches_up(*old(self), now as int, solar_temp as int),
            *final(self) == if catches_up(*old(self), now as int, solar_temp as int) {
                released(*old(self))
            } else {
                *old(self)
            },
    {
        if !self.manual_mode {
            return Target { temp: solar_temp, caught_up: false };
        }
        let temp = sigmoid::calculate_manual_temp(
            self.manual_target_temp,
            self.manual_start_time,
            self.manual_duration_min,
            now,
            ramp_temp,
        );
        if self.checks_catch_up(now) {
            let caught_up = if self.manual_start_temp >= self.manual_target_temp {
                solar_temp <= self.manual_target_temp
            } else {
                solar_temp >= self.manual_target_temp
            };
            if caught_up {
                self.release();
                return Target { temp: solar_temp, caught_up: true };
            }
        }
        Target { temp, caught_up: false }
    }

    /// Whether the screens do not show `temp` yet.
    pub fn must_apply(&self, temp: i32) -> (r: bool)
        ensures
            r == (!self.last_temp_valid || temp != self.last_temp),
            r == !shows(*self, temp),
    {
        !self.last_temp_valid || temp != self.last_temp
    }

    /// Records that the screens show `temp`.
    pub fn applied(&mut self, temp: i32)
        ensures
            *final(self) == (DaemonState { last_temp: temp, last_temp_valid: true, ..*old(self) }),
            *final(self) == after_shown(*old(self), temp),
    {
        self.last_temp = temp;
        self.last_temp_valid = true;
    }

    /// The last step of a tick: `shown` says whether the screens took `temp`.
    pub fn end_tick(&mut self, temp: i32, shown: bool)
        ensures
            *final(self) == if shown {
                DaemonState { last_temp: temp, last_temp_valid: true, ..*old(self) }
            } else {
                *old(self)
            },
            *final(self) == if shown {
                after_shown(*old(self), temp)
            } else {
                *old(self)
            },
    {
        if shown {
            self.applied(temp);
        }
    }

    /// Seconds until the next tick: denser during a manual transition.
    pub fn manual_tick_sec(&self, now: i64) -> (r: i64)
        requires
            i64::MIN <= now - self.manual_start_time <= i64::MAX,
        ensures
            r == tick_seconds(*self, now as int),
            1 <= r <= TEMP_UPDATE_SEC,
    {
        if !self.manual_mode || self.manual_duration_min <= 0 {
            return TEMP_UPDATE_SEC;
        }
        if sigmoid::is_transition_over(self.manual_start_time, self.manual_duration_min, now) {
            return TEMP_UPDATE_SEC;
        }
        let sec = (self.manual_duration_min as i64 * 60) / MANUAL_TARGET_SAMPLES;
        if sec < 1 {
            1
        } else if sec > TEMP_UPDATE_SEC {
            TEMP_UPDATE_SEC
        } else {
            sec
        }
    }
}

/// What follows when no gamma backend was found at attempt `attempt`, counted from 0.
/// `signalled` says whether a shutdown signal is pending.
pub fn gamma_retry(attempt: i32, signalled: bool) -> (r: RetryStep)
    ensures
        r == if attempt == GAMMA_INIT_MAX_RETRIES - 1 {
            RetryStep::GiveUp
        } else if signalled {
            RetryStep::Leave
        } else {
            RetryStep::SleepMs(GAMMA_INIT_RETRY_MS)
        },
        r == retry_after(attempt as int, signalled),
{
    if attempt == GAMMA_INIT_MAX_RETRIES - 1 {
        RetryStep::GiveUp
    } else if signalled {
        RetryStep::Leave
    } else {
        RetryStep::SleepMs(GAMMA_INIT_RETRY_MS)
    }
}

/// The report that stands for a fetch that failed.
pub fn failed_report(now: i64) -> (r: WeatherData)
    ensures
        r.cloud_cover == 0,
        r.forecast@ == "Unknown"@,
        r.temperature == 0,
        r.is_day,
        r.fetched_at == now,
        r.has_error,
{
    WeatherData {
        cloud_cover: 0,
        forecast: "Unknown".to_string(),
        temperature: 0,
        is_day: true,
        fetched_at: now,
        has_error: true,
    }
}

/// Whether a weather fetch is to begin: none runs, and there is no report or it is old.
pub fn wants_fetch(fetch: &FetchState, weather: &Option<WeatherData>, now: i64) -> (r: bool)
    requires
        weather matches Some(w) ==> i64::MIN <= now - w.fetched_at <= i64::MAX,
    ensures
        r == (fetch.phase == FetchPhase::Idle && match *weather {
            Some(w) => w.has_error || w.fetched_at == 0 || now - w.fetched_at
                > config::WEATHER_REFRESH_SEC,
            None => true,
        }),
{
    if fetch.phase != FetchPhase::Idle {
        return false;
    }
    match weather {
        Some(w) => config::weather_needs_refresh(w, now),
        None => true,
    }
}

/// Takes the end of a fetch up: its report, or the one that stands for a failure. The pipe's poll
/// is dead. The result says whether the report is to be cached.
pub fn note_report(
    result: Result<WeatherData, FetchError>,
    polls: &mut PollState,
    weather: &mut Option<WeatherData>,
    now: i64,
) -> (r: bool)
    ensures
        *final(polls) == (PollState { weather: false, ..*old(polls) }),
        r == result is Ok,
        match result {
            Ok(wd) => *final(weather) == Some(wd),
            Err(_) => *final(weather) matches Some(w) && w.has_error && w.cloud_cover == 0
                && w.forecast@ == "Unknown"@ && w.temperature == 0 && w.is_day && w.fetched_at
                == now,
        },
{
    polls.weather = false;
    match result {
        Ok(wd) => {
            *weather = Some(wd);
            true
        },
        Err(_) => {
            *weather = Some(failed_report(now));
            false
        },
    }
}

/// An override that is followed already is not taken up anew: its ramp goes on from where it
/// began.
pub proof fn law_followed_override_goes_on(
    s: DaemonState,
    o: OverrideState,
    now: int,
    today: Option<SunTimes>,
    tomorrow: Option<SunTimes>,
)
    requires
        s.manual_mode,
        o.active,
        o.issued_at == s.manual_issued_at,
    ensures
        after_override(s, Some(o), now, today, tomorrow) == s,
        override_file_after(s, Some(o)) == OverrideFile::Keep,
{
}

/// A second look at the same file changes nothing more.
pub proof fn law_override_is_noted_once(
    s: DaemonState,
    file: Option<OverrideState>,
    now: int,
    later: int,
    today: Option<SunTimes>,
    tomorrow: Option<SunTimes>,
)
    ensures
        ({
            let once = after_override(s, file, now, today, tomorrow);
            &&& after_override(once, file, later, today, tomorrow) == once
            &&& override_file_after(once, file) == OverrideFile::Keep
        }),
{
}

/// A restart takes up an active override whether or not its transition is over, and the first
/// look at its file afterwards leaves it as it was taken up.
pub proof fn law_restart_keeps_override(
    s: DaemonState,
    o: OverrideState,
    solar: i32,
    now: int,
    later: int,
    today: Option<SunTimes>,
    tomorrow: Option<SunTimes>,
)
    requires
        o.active,
    ensures
        ({
            let r = after_recovery(s, Some(o), solar, now, today, tomorrow);
            &&& r.manual_mode
            &&& r.manual_target_temp == o.target_temp
            &&& after_override(r, Some(o), later, today, tomorrow) == r
        }),
{
}

/// Past its transition an override holds its target until the solar curve reaches it, however
/// long that takes.
pub proof fn law_override_holds_until_solar_catches_up(
    s: DaemonState,
    now: int,
    ramp: int,
    solar: int,
)
    requires
        s.manual_mode,
        sigmoid::transition_over(s.manual_start_time as int, s.manual_duration_min as int, now),
        !crossed(s, solar),
    ensures
        !catches_up(s, now, solar),
        tick_temp(s, now, ramp, solar) == s.manual_target_temp,
{
}

/// Giving an override up does not jump back over its target: a darkening one ends at or below
/// it, a brightening one at or above it.
pub proof fn law_release_is_at_or_past_target(s: DaemonState, now: int, ramp: int, solar: int)
    requires
        catches_up(s, now, solar),
    ensures
        darkened(s) ==> tick_temp(s, now, ramp, solar) <= s.manual_target_temp,
        !darkened(s) ==> tick_temp(s, now, ramp, solar) >= s.manual_target_temp,
{
}

/// Before the solar window opens an override is never given up.
pub proof fn law_no_release_before_window(s: DaemonState, now: int, solar: int)
    requires
        now < s.catch_up_check_after,
    ensures
        !catches_up(s, now, solar),
{
}

/// An override that is new is taken up, also where the daemon follows another one: it holds the new
/// one's target, duration and issue time, its ramp runs from its issue on, and begins at the
/// temperature last shown, or, where none was, at the target. The rest of the state stays.
pub proof fn law_new_override_is_taken_up(
    s: DaemonState,
    o: OverrideState,
    now: int,
    today: Option<SunTimes>,
    tomorrow: Option<SunTimes>,
)
    requires
        o.active,
        s.manual_mode ==> o.issued_at != s.manual_issued_at,
    ensures
        ({
            let t = after_override(s, Some(o), now, today, tomorrow);
            &&& t.manual_mode
            &&& t.manual_target_temp == o.target_temp
            &&& t.manual_duration_min == o.duration_minutes
            &&& t.manual_issued_at == o.issued_at
            &&& t.manual_start_time == o.issued_at
            &&& s.last_temp_valid ==> t.manual_start_temp == s.last_temp
            &&& !s.last_temp_valid ==> t.manual_start_temp == o.target_temp
            &&& t.last_temp == s.last_temp && t.last_temp_valid == s.last_temp_valid
            &&& t.cloud_dark == s.cloud_dark && t.cloud_transition_start
                == s.cloud_transition_start
        }),
{
}

/// Of two overrides the later one holds: the state after both is that after the second alone.
pub proof fn law_last_override_holds(
    s: DaemonState,
    first: OverrideState,
    second: OverrideState,
    earlier: int,
    now: int,
    today: Option<SunTimes>,
    tomorrow: Option<SunTimes>,
)
    requires
        first.active,
        second.active,
        first.issued_at != second.issued_at,
        s.manual_mode ==> s.manual_issued_at != second.issued_at,
    ensures
        after_override(
            after_override(s, Some(first), earlier, today, tomorrow),
            Some(second),
            now,
            today,
            tomorrow,
        ) == after_override(s, Some(second), now, today, tomorrow),
{
}

/// An override waits for the sun's curve to move its way: a new one that darkens, or leaves the
/// screen as it is, for the dusk window, one that brightens for the dawn window.
pub proof fn law_override_waits_for_its_window(
    s: DaemonState,
    o: OverrideState,
    now: int,
    today: SunTimes,
    tomorrow: Option<SunTimes>,
)
    requires
        o.active,
        s.manual_mode ==> o.issued_at != s.manual_issued_at,
        s.last_temp_valid,
        sigmoid::clock_in_range(today.sunset),
        sigmoid::clock_in_range(today.sunrise),
    ensures
        ({
            let t = after_override(s, Some(o), now, Some(today), tomorrow);
            let dusk = today.sunset - sigmoid::DUSK_OFFSET_SEC - sigmoid::DUSK_DURATION_SEC / 2;
            let dawn = today.sunrise + sigmoid::DAWN_OFFSET_SEC - sigmoid::DAWN_DURATION_SEC / 2;
            &&& o.target_temp <= s.last_temp && now < dusk ==> t.catch_up_check_after == dusk
            &&& o.target_temp > s.last_temp && now < dawn ==> t.catch_up_check_after == dawn
        }),
{
}

/// A file that says that the override is over gives it up: solar control is back, nothing is
/// waited for, and the file goes. Outside an override it changes nothing, and the file stays.
pub proof fn law_cleared_file_releases(
    s: DaemonState,
    o: OverrideState,
    now: int,
    ramp: int,
    solar: int,
    today: Option<SunTimes>,
    tomorrow: Option<SunTimes>,
)
    requires
        !o.active,
    ensures
        ({
            let t = after_override(s, Some(o), now, today, tomorrow);
            &&& !t.manual_mode
            &&& tick_temp(t, now, ramp, solar) == solar
            &&& s.manual_mode ==> t.manual_issued_at == 0 && t.catch_up_check_after == 0
            &&& !s.manual_mode ==> t == s
            &&& override_file_after(s, Some(o)) == if s.manual_mode {
                OverrideFile::Remove
            } else {
                OverrideFile::Keep
            }
        }),
{
}

/// A file that is missing says nothing.
pub proof fn law_missing_file_changes_nothing(
    s: DaemonState,
    solar: i32,
    now: int,
    today: Option<SunTimes>,
    tomorrow: Option<SunTimes>,
)
    ensures
        after_override(s, None, now, today, tomorrow) == s,
        override_file_after(s, None) == OverrideFile::Keep,
        after_recovery(s, None, solar, now, today, tomorrow) == s,
{
}

/// What a new override's start was is kept in its file: a daemon that restarts from the file as it
/// stands then takes the override up as it was, its start included.
pub proof fn law_saved_override_survives_restart(
    s: DaemonState,
    fresh: DaemonState,
    o: OverrideState,
    solar: i32,
    now: int,
    today: Option<SunTimes>,
    tomorrow: Option<SunTimes>,
)
    requires
        o.active,
        s.manual_mode ==> o.issued_at != s.manual_issued_at,
        o.start_temp == 0,
        s.last_temp_valid ==> s.last_temp != 0,
        !s.last_temp_valid ==> o.target_temp != 0,
    ensures
        ({
            let t = after_override(s, Some(o), now, today, tomorrow);
            &&& override_file_after(s, Some(o)) matches OverrideFile::Save(file)
            &&& {
                let r = after_recovery(fresh, Some(file), solar, now, today, tomorrow);
                &&& r.manual_mode
                &&& r.manual_start_temp == t.manual_start_temp
                &&& r.manual_target_temp == t.manual_target_temp
                &&& r.manual_start_time == t.manual_start_time
                &&& r.manual_duration_min == t.manual_duration_min
                &&& r.manual_issued_at == t.manual_issued_at
                &&& r.catch_up_check_after == t.catch_up_check_after
            }
        }),
{
}

/// A file whose start is known is not written again.
pub proof fn law_known_start_is_not_saved(s: DaemonState, o: OverrideState)
    requires
        o.active,
        o.start_temp != 0,
    ensures
        override_file_after(s, Some(o)) == OverrideFile::Keep,
{
}

/// A restart takes an active override up where it began, if its file says so, else at the solar
/// temperature, and an inactive one not at all.
pub proof fn law_restart_begins_where_override_began(
    s: DaemonState,
    o: OverrideState,
    solar: i32,
    now: int,
    today: Option<SunTimes>,
    tomorrow: Option<SunTimes>,
)
    ensures
        ({
            let r = after_recovery(s, Some(o), solar, now, today, tomorrow);
            &&& !o.active ==> r == s
            &&& o.active ==> r.manual_mode && r.manual_issued_at == o.issued_at
                && r.manual_start_time == o.issued_at && r.manual_duration_min
                == o.duration_minutes
            &&& o.active && o.start_temp != 0 ==> r.manual_start_temp == o.start_temp
            &&& o.active && o.start_temp == 0 ==> r.manual_start_temp == solar
        }),
{
}

/// A turn of the weather starts a transition at once, from the factor that stands, and any look at
/// the same weather within its time finds it running, with the time since the turn.
pub proof fn law_weather_turn_runs_its_time(s: DaemonState, dark: bool, earlier: int, now: int)
    requires
        0 < earlier <= now <= i64::MAX,
        dark != s.cloud_dark,
    ensures
        ({
            let turned = after_clouds(s, dark, earlier);
            &&& turned.cloud_dark == dark
            &&& cloud_step(s, dark, earlier) == (CloudStep::Moving { fresh: true, elapsed: 0 })
            &&& now - earlier < 600 ==> cloud_step(turned, dark, now) == (CloudStep::Moving {
                fresh: false,
                elapsed: (now - earlier) as i64,
            })
            &&& now - earlier < 600 ==> after_clouds(turned, dark, now) == turned
            &&& now - earlier >= 600 ==> cloud_step(turned, dark, now) == CloudStep::Arrived
            &&& now - earlier >= 600 ==> cloud_step(after_clouds(turned, dark, now), dark, now)
                == CloudStep::Settled
        }),
{
}

/// Weather that stays as it was moves nothing: where no transition runs, none begins.
pub proof fn law_steady_weather_stays_settled(s: DaemonState, now: int)
    requires
        s.cloud_transition_start == 0,
    ensures
        cloud_step(s, s.cloud_dark, now) == CloudStep::Settled,
        after_clouds(s, s.cloud_dark, now) == s,
{
}

/// Looking at the weather leaves the override alone, and looking at the override file leaves the
/// clouds alone.
pub proof fn law_clouds_and_overrides_are_apart(
    s: DaemonState,
    dark: bool,
    file: Option<OverrideState>,
    now: int,
    today: Option<SunTimes>,
    tomorrow: Option<SunTimes>,
)
    ensures
        after_clouds(after_override(s, file, now, today, tomorrow), dark, now) == after_override(
            after_clouds(s, dark, now),
            file,
            now,
            today,
            tomorrow,
        ),
        cloud_step(after_override(s, file, now, today, tomorrow), dark, now) == cloud_step(
            s,
            dark,
            now,
        ),
{
}

/// The temperature of a tick is the sun's outside an override, the ramp's while an override moves,
/// and its target from then on until the sun's curve, its window open, has come to it.
pub proof fn law_tick_follows_the_override(s: DaemonState, now: int, ramp: int, solar: int)
    ensures
        ({
            let t = tick_temp(s, now, ramp, solar);
            let ends = s.manual_start_time + 60 * s.manual_duration_min;
            let darkening = s.manual_start_temp >= s.manual_target_temp;
            let there = if darkening {
                solar <= s.manual_target_temp
            } else {
                solar >= s.manual_target_temp
            };
            let open = 0 < s.catch_up_check_after <= now;
            &&& !s.manual_mode ==> t == solar
            &&& s.manual_mode && s.manual_duration_min > 0 && now < ends ==> t == ramp
            &&& s.manual_mode && now >= ends && !(open && there) ==> t == s.manual_target_temp
            &&& s.manual_mode && now >= ends && open && there ==> t == solar && catches_up(
                s,
                now,
                solar,
            )
            &&& catches_up(s, now, solar) ==> s.manual_mode && now >= ends && open && there
        }),
{
}

/// Once given up, an override is over: the next tick shows the sun's temperature, whatever the ramp
/// says, and gives nothing up again. The file that is gone does not bring it back.
pub proof fn law_released_override_is_over(
    s: DaemonState,
    now: int,
    ramp: int,
    solar: int,
    later: int,
    later_ramp: int,
    later_solar: int,
)
    requires
        catches_up(s, now, solar),
    ensures
        ({
            let t = released(s);
            &&& tick_temp(t, later, later_ramp, later_solar) == later_solar
            &&& !catches_up(t, later, later_solar)
            &&& after_override(t, None, later, None, None) == t
            &&& t.last_temp == s.last_temp
            &&& t.last_temp_valid == s.last_temp_valid
            &&& t.cloud_dark == s.cloud_dark
            &&& t.cloud_transition_start == s.cloud_transition_start
        }),
{
}

/// Ticks come a minute apart, and denser while an override moves: then a transition is cut in 36
/// parts, none shorter than a second or longer than a minute.
pub proof fn law_ticks_divide_the_transition(s: DaemonState, now: int)
    ensures
        ({
            let sec = tick_seconds(s, now);
            let whole = 60 * s.manual_duration_min;
            let moving = s.manual_mode && s.manual_duration_min > 0 && now < s.manual_start_time
                + whole;
            &&& !moving ==> sec == 60
            &&& moving && 36 <= whole <= 36 * 60 ==> 36 * sec <= whole < 36 * (sec + 1)
            &&& moving && whole > 36 * 60 ==> sec == 60
            &&& 1 <= sec <= 60
        }),
{
}

/// A completion raises the event that its tag stands for, and that alone; no event is taken back.
pub proof fn law_completion_raises_its_event(
    events: EventFlags,
    cqe: IoUringCqe,
    files: FileChanges,
)
    ensures
        ({
            let after = events_after(events, cqe, files);
            &&& events.timer ==> after.timer
            &&& events.signal ==> after.signal
            &&& events.weather ==> after.weather
            &&& events.override_file ==> after.override_file
            &&& events.config_file ==> after.config_file
            &&& cqe.user_data == uring::EV_TIMEOUT ==> after == (EventFlags {
                timer: true,
                ..events
            })
            &&& cqe.user_data == uring::EV_SIGNAL ==> after == (EventFlags {
                signal: true,
                ..events
            })
            &&& cqe.user_data == uring::EV_WEATHER && cqe.res > 0 ==> after == (EventFlags {
                weather: true,
                ..events
            })
            &&& cqe.user_data == uring::EV_INOTIFY && cqe.res > 0 && files.override_file
                ==> after.override_file
            &&& cqe.user_data == uring::EV_INOTIFY && cqe.res > 0 && files.config_file
                ==> after.config_file
            &&& cqe.user_data == uring::EV_INOTIFY && !files.override_file && !files.config_file
                ==> after == events
            &&& cqe.user_data == uring::EV_CANCEL ==> after == events
            &&& cqe.res <= 0 && cqe.user_data != uring::EV_TIMEOUT && cqe.user_data
                != uring::EV_SIGNAL ==> after == events
        }),
{
}

/// A poll dies with the completion that says that no more follow, and with no other.
pub proof fn law_poll_dies_with_its_last_completion(polls: PollState, cqe: IoUringCqe)
    ensures
        ({
            let after = polls_after(polls, cqe);
            let more = cqe.flags & uring::IORING_CQE_F_MORE != 0;
            &&& more ==> after == polls
            &&& !more && cqe.user_data == uring::EV_SIGNAL ==> after == (PollState {
                signal: false,
                ..polls
            })
            &&& !more && cqe.user_data == uring::EV_INOTIFY ==> after == (PollState {
                inotify: false,
                ..polls
            })
            &&& !more && cqe.user_data == uring::EV_WEATHER ==> after == (PollState {
                weather: false,
                ..polls
            })
            &&& cqe.user_data == uring::EV_TIMEOUT || cqe.user_data == uring::EV_CANCEL ==> after
                == polls
        }),
{
}

/// Where the ring has room, arming it hands in one poll for each open descriptor that has none
/// alive, and last the timeout; nothing that waited is lost.
pub proof fn law_arming_polls_what_is_open(
    pending: Seq<IoUringSqe>,
    entries: int,
    polls: PollState,
    ino_fd: i32,
    signal_fd: i32,
    weather_fd: Option<i32>,
    ts_addr: u64,
)
    requires
        pending.len() + 4 <= entries,
    ensures
        ({
            let a = armed(pending, entries, polls, ino_fd, signal_fd, weather_fd, ts_addr);
            let ino = ino_fd >= 0 && !polls.inotify;
            let sig = signal_fd >= 0 && !polls.signal;
            let wth = weather_fd is Some && !polls.weather;
            let count: int = (if ino {
                1int
            } else {
                0
            }) + (if sig {
                1int
            } else {
                0
            }) + (if wth {
                1int
            } else {
                0
            });
            &&& a.len() == pending.len() + count + 1
            &&& a.take(pending.len() as int) == pending
            &&& a.last().user_data == uring::EV_TIMEOUT
            &&& ino ==> a[pending.len() as int].user_data == uring::EV_INOTIFY
                && a[pending.len() as int].fd == ino_fd
            &&& sig ==> a[pending.len() + if ino {
                1int
            } else {
                0
            }].user_data == uring::EV_SIGNAL && a[pending.len() + if ino {
                1int
            } else {
                0
            }].fd == signal_fd
            &&& wth ==> a[a.len() - 2].user_data == uring::EV_WEATHER && Some(a[a.len() - 2].fd)
                == weather_fd
        }),
{
    let a = armed(pending, entries, polls, ino_fd, signal_fd, weather_fd, ts_addr);
    assert(a.take(pending.len() as int) =~= pending);
}

proof fn lemma_names_file_shift(buf: Seq<u8>, at: int, n: int, file: Seq<u8>)
    requires
        0 <= n <= at <= buf.len(),
    ensures
        names_file(buf, at, file) == names_file(buf.skip(n), at - n, file),
    decreases buf.len() - at,
{
    let t = buf.skip(n);
    let b = at - n;
    if at + EVENT_HEADER_SIZE <= buf.len() {
        assert(u32_at(t, b + 12) == u32_at(buf, at + 12));
        let len = u32_at(buf, at + 12);
        let end = at + EVENT_HEADER_SIZE + len;
        if end <= buf.len() && len >= 0 {
            assert(t.subrange(b + EVENT_HEADER_SIZE, end - n) =~= buf.subrange(
                at + EVENT_HEADER_SIZE,
                end,
            ));
            lemma_names_file_shift(buf, end, n, file);
        }
    }
}

/// Events are read one behind the other: a buffer that begins with an event names a file where that
/// event's name, up to its padding, is the file's, or where the rest of the buffer names it. `name`
/// is the event's name with its padding, and `header` ends in its length.
pub proof fn law_events_are_read_in_turn(
    header: Seq<u8>,
    name: Seq<u8>,
    rest: Seq<u8>,
    file: Seq<u8>,
)
    requires
        header.len() == 16,
        name.len() == header[12] + header[13] * 0x100 + header[14] * 0x1_0000 + header[15]
            * 0x100_0000,
    ensures
        names_file(header + name + rest, 0, file) == ((name.len() > 0 && until_zero(name) == file)
            || names_file(rest, 0, file)),
{
    let buf = header + name + rest;
    assert(buf[12] == header[12] && buf[13] == header[13] && buf[14] == header[14] && buf[15]
        == header[15]);
    assert(u32_at(buf, 12) == name.len());
    let end = 16 + name.len();
    assert(buf.subrange(16, end as int) =~= name);
    lemma_names_file_shift(buf, end as int, end as int, file);
    assert(buf.skip(end as int) =~= rest);
}

/// A name ends at its padding: zeros behind a name that holds none do not count.
pub proof fn law_padding_is_no_part_of_a_name(name: Seq<u8>, padding: Seq<u8>)
    requires
        forall|i: int| 0 <= i < name.len() ==> name[i] != 0,
        forall|i: int| 0 <= i < padding.len() ==> padding[i] == 0,
    ensures
        until_zero(name + padding) == name,
{
    let s = name + padding;
    lemma_until_zero(s, name.len() as int);
    assert(s.take(name.len() as int) =~= name);
}

/// A buffer too short for an event, or whose first event is cut off, names nothing.
pub proof fn law_cut_off_event_names_nothing(buf: Seq<u8>, file: Seq<u8>)
    requires
        buf.len() < 16 || buf.len() < 16 + buf[12] + buf[13] * 0x100 + buf[14] * 0x1_0000 + buf[15]
            * 0x100_0000,
    ensures
        !names_file(buf, 0, file),
{
}

/// A temperature that the screens took need not be set again, and any other does; an override that is
/// issued then begins at it. What is shown changes nothing of an override or of the clouds.
pub proof fn law_shown_temperature_is_not_set_again(
    s: DaemonState,
    temp: i32,
    other: i32,
    o: OverrideState,
    now: int,
    today: Option<SunTimes>,
    tomorrow: Option<SunTimes>,
)
    requires
        o.active,
        s.manual_mode ==> o.issued_at != s.manual_issued_at,
    ensures
        ({
            let t = after_shown(s, temp);
            &&& shows(t, temp)
            &&& other != temp ==> !shows(t, other)
            &&& after_override(t, Some(o), now, today, tomorrow).manual_start_temp == temp
            &&& t.manual_mode == s.manual_mode && t.manual_target_temp == s.manual_target_temp
                && t.manual_issued_at == s.manual_issued_at && t.catch_up_check_after
                == s.catch_up_check_after
            &&& t.cloud_dark == s.cloud_dark && t.cloud_transition_start
                == s.cloud_transition_start
            &&& !s.last_temp_valid ==> !shows(s, other)
        }),
{
}

/// A signal stops the daemon, whatever else woke it; without one it ticks, and looks at the files that
/// were named.
pub proof fn law_signal_stops_the_daemon(events: EventFlags, cqe: IoUringCqe, files: FileChanges)
    ensures
        step_after(events) == LoopStep::Stop <==> events.signal,
        cqe.user_data == uring::EV_SIGNAL ==> step_after(events_after(events, cqe, files))
            == LoopStep::Stop,
        step_after(events) matches LoopStep::Tick { override_changed, config_changed } ==> (
        override_changed == events.override_file && config_changed == events.config_file),
        step_after(no_events()) == (LoopStep::Tick {
            override_changed: false,
            config_changed: false,
        }),
{
}

/// A ring without room takes nothing: what waits stays as it is.
pub proof fn law_full_ring_takes_nothing(
    pending: Seq<IoUringSqe>,
    entries: int,
    polls: PollState,
    ino_fd: i32,
    signal_fd: i32,
    weather_fd: Option<i32>,
    ts_addr: u64,
)
    requires
        pending.len() >= entries,
    ensures
        armed(pending, entries, polls, ino_fd, signal_fd, weather_fd, ts_addr) == pending,
{
}

/// What a failed attempt leads to.
pub open spec fn retry_after(attempt: int, signalled: bool) -> RetryStep {
    if attempt == GAMMA_INIT_MAX_RETRIES - 1 {
        RetryStep::GiveUp
    } else if signalled {
        RetryStep::Leave
    } else {
        RetryStep::SleepMs(GAMMA_INIT_RETRY_MS)
    }
}

/// The backends are tried sixty times, half a second apart, and no more; a shutdown that is asked for
/// meanwhile is followed at once.
pub proof fn law_backends_are_tried_for_half_a_minute(attempt: int)
    requires
        0 <= attempt < 60,
    ensures
        attempt < 59 ==> retry_after(attempt, false) == RetryStep::SleepMs(500),
        attempt < 59 ==> retry_after(attempt, true) == RetryStep::Leave,
        attempt == 59 ==> retry_after(attempt, false) == RetryStep::GiveUp && retry_after(
            attempt,
            true,
        ) == RetryStep::GiveUp,
{
}

} // verus!
