//! The read loop as a state machine without input or output: it is fed lines
//! and clock ticks and returns effects. All time is injected as milliseconds.
//!
//! Reactions that belong to the backend (sounds, shot records, notifications,
//! flashing, configuration) are emitted as events; the backend decides.

use crate::command::{action_frame, encode_action};
use crate::esp_info::{opt_info, EspInfo, InfoView};
use crate::events::{Alarm, AlarmView, EventView, MachineEvent};
use crate::message::{
    boot_banner, crash_marker, has_crash_marker, is_boot_banner, line_kind, line_message,
    opt_message, parse_line, EspMessage, LineKind, MessageView,
};
use crate::sensor::{opt_sensors, SensorData, SensorView};
use crate::shot::{default_shot, text_arg, ShotData, ShotView};
use crate::status;
use crate::text::{join, join_owned, owned, owned_texts, same_text};
use vstd::prelude::*;

verus! {

/// After this many consecutive boot banners the firmware is flashed again.
pub const RESET_COUNT_FOR_UPDATE: u32 = 3;

/// Silence beyond this raises the disconnect alarm.
pub const DISCONNECT_TIMEOUT_MS: u64 = 500;

/// A weight that is stable for this long ends a shot during retraction.
pub const STABLE_TIME_THRESHOLD_MS: u64 = 2000;

// ---------------------------------------------------------------------------
// Effects and state
// ---------------------------------------------------------------------------

/// What the runtime must do after it fed the state machine.
#[derive(Debug, PartialEq, Eq)]
pub enum Effect {
    /// Write these bytes to the chip.
    Send(Vec<u8>),
    /// Publish this event.
    Event(MachineEvent),
}

/// What an [`Effect`] holds.
pub enum EffectView {
    Send(Seq<u8>),
    Event(EventView),
}

impl View for Effect {
    type V = EffectView;

    open spec fn view(&self) -> EffectView {
        match self {
            Effect::Send(bytes) => EffectView::Send(bytes@),
            Effect::Event(event) => EffectView::Event(event@),
        }
    }
}

/// The effects behind a list.
pub open spec fn effects_of(effects: Seq<Effect>) -> Seq<EffectView> {
    Seq::new(effects.len(), |i: int| effects[i]@)
}

/// Read-only snapshot of the machine state.
#[derive(Debug, PartialEq, Eq)]
pub struct MachineSnapshot {
    /// Last `Data,` payload, stamped with time and extraction.
    pub data_sensors: ShotData,
    /// Last `Sensors,` payload.
    pub sensors: Option<SensorData>,
    /// Last `ESPInfo`.
    pub esp_info: Option<EspInfo>,
    /// Whether the machine has talked since the last boot.
    pub info_ready: bool,
    /// Whether a profile is loaded.
    pub profile_ready: bool,
    /// Consecutive boot banners without a valid message.
    pub reset_count: u32,
}

/// What a [`MachineSnapshot`] holds.
pub struct SnapshotView {
    pub data_sensors: ShotView,
    pub sensors: Option<SensorView>,
    pub esp_info: Option<InfoView>,
    pub info_ready: bool,
    pub profile_ready: bool,
    pub reset_count: int,
}

impl View for MachineSnapshot {
    type V = SnapshotView;

    open spec fn view(&self) -> SnapshotView {
        SnapshotView {
            data_sensors: self.data_sensors@,
            sensors: opt_sensors(self.sensors),
            esp_info: opt_info(self.esp_info),
            info_ready: self.info_ready,
            profile_ready: self.profile_ready,
            reset_count: self.reset_count as int,
        }
    }
}

fn clone_sensors(v: &Option<SensorData>) -> (r: Option<SensorData>)
    ensures
        r == *v,
{
    match v {
        Some(m) => Some(m.clone()),
        None => None,
    }
}

fn clone_info(v: &Option<EspInfo>) -> (r: Option<EspInfo>)
    ensures
        r == *v,
{
    match v {
        Some(m) => Some(m.clone()),
        None => None,
    }
}

impl Clone for MachineSnapshot {
    fn clone(&self) -> (r: Self)
        ensures
            r == *self,
    {
        MachineSnapshot {
            data_sensors: self.data_sensors.clone(),
            sensors: clone_sensors(&self.sensors),
            esp_info: clone_info(&self.esp_info),
            info_ready: self.info_ready,
            profile_ready: self.profile_ready,
            reset_count: self.reset_count,
        }
    }
}

/// The state machine.
#[derive(Debug)]
pub struct ReaderState {
    data_sensors: ShotData,
    sensors: Option<SensorData>,
    esp_info: Option<EspInfo>,
    info_ready: bool,
    profile_ready: bool,
    reset_count: u32,
    restart_requested: bool,
    info_requested: bool,
    collecting_trace: bool,
    trace: Vec<String>,
    last_valid_ms: u64,
    old_status: String,
    time_flag: bool,
    shot_start_ms: u64,
    time_passed_ms: i64,
    profile_time_ms: i64,
    stable_start_ms: Option<u64>,
    restart_alarm_set: bool,
    disconnect_alarm_set: bool,
}

/// What a [`ReaderState`] holds.
#[verifier::ext_equal]
pub struct ReaderView {
    /// The last datapoint, stamped.
    pub data_sensors: ShotView,
    /// The last sensor readings.
    pub sensors: Option<SensorView>,
    /// The last machine information.
    pub esp_info: Option<InfoView>,
    /// The machine has talked since the last boot.
    pub info_ready: bool,
    /// A profile is loaded.
    pub profile_ready: bool,
    /// Consecutive boot banners without a valid message.
    pub reset_count: int,
    /// A reset was requested, which keeps both alarms down until the first
    /// valid message.
    pub restart_requested: bool,
    /// Machine information was asked for and has not come.
    pub info_requested: bool,
    /// Lines belong to a crash trace.
    pub collecting_trace: bool,
    /// The crash trace.
    pub trace: Seq<Seq<char>>,
    /// When the last valid message came.
    pub last_valid_ms: int,
    /// The status of the last datapoint.
    pub old_status: Seq<char>,
    /// A shot is running.
    pub time_flag: bool,
    /// When the shot started.
    pub shot_start_ms: int,
    /// The shot time of the last datapoint.
    pub time_passed_ms: int,
    /// The profile time of the last datapoint.
    pub profile_time_ms: int,
    /// Since when the weight has been stable during retraction.
    pub stable_start_ms: Option<int>,
    /// The restart alarm is up.
    pub restart_alarm_set: bool,
    /// The disconnect alarm is up.
    pub disconnect_alarm_set: bool,
}

impl ReaderView {
    /// What holds at every stage of a line: the reset watchdog fires at the
    /// third banner at the latest, a stable weight is only watched while a
    /// shot retracts, and the last datapoint says whether a shot is running.
    pub open spec fn consistent(self) -> bool {
        &&& 0 <= self.reset_count < RESET_COUNT_FOR_UPDATE
        &&& self.stable_start_ms is Some ==> self.time_flag && self.old_status
            == status::RETRACTING@
        &&& self.data_sensors.is_extracting == self.time_flag
    }

    /// What holds between lines: the stages have left the state consistent,
    /// and banners that nobody asked for have raised the restart alarm.
    pub open spec fn wf(self) -> bool {
        &&& self.consistent()
        &&& self.reset_count > 0 ==> self.restart_requested || self.restart_alarm_set
    }
}

impl View for ReaderState {
    type V = ReaderView;

    closed spec fn view(&self) -> ReaderView {
        ReaderView {
            data_sensors: self.data_sensors@,
            sensors: opt_sensors(self.sensors),
            esp_info: opt_info(self.esp_info),
            info_ready: self.info_ready,
            profile_ready: self.profile_ready,
            reset_count: self.reset_count as int,
            restart_requested: self.restart_requested,
            info_requested: self.info_requested,
            collecting_trace: self.collecting_trace,
            trace: owned_texts(self.trace@),
            last_valid_ms: self.last_valid_ms as int,
            old_status: self.old_status@,
            time_flag: self.time_flag,
            shot_start_ms: self.shot_start_ms as int,
            time_passed_ms: self.time_passed_ms as int,
            profile_time_ms: self.profile_time_ms as int,
            stable_start_ms: match self.stable_start_ms {
                Some(t) => Some(t as int),
                None => None,
            },
            restart_alarm_set: self.restart_alarm_set,
            disconnect_alarm_set: self.disconnect_alarm_set,
        }
    }
}

// ---------------------------------------------------------------------------
// What each stage does
// ---------------------------------------------------------------------------

/// A state and the effects on the way to it.
pub struct Step {
    pub state: ReaderView,
    pub effects: Seq<EffectView>,
}

/// The list with one event.
pub open spec fn just(event: EventView) -> Seq<EffectView> {
    seq![EffectView::Event(event)]
}

/// No effects.
pub open spec fn nothing() -> Seq<EffectView> {
    Seq::<EffectView>::empty()
}

/// Milliseconds from `since` to `now`; none where the clock stands before.
pub open spec fn elapsed(now: int, since: int) -> int {
    if now >= since {
        now - since
    } else {
        0
    }
}

/// The state at startup: idle, with a reset requested.
pub open spec fn fresh(now: int) -> ReaderView {
    ReaderView {
        data_sensors: ShotView {
            status: Some(status::IDLE@),
            profile: Some(status::IDLE@),
            ..default_shot()
        },
        sensors: None,
        esp_info: None,
        info_ready: false,
        profile_ready: false,
        reset_count: 0,
        restart_requested: true,
        info_requested: false,
        collecting_trace: false,
        trace: Seq::<Seq<char>>::empty(),
        last_valid_ms: now,
        old_status: status::IDLE@,
        time_flag: false,
        shot_start_ms: now,
        time_passed_ms: 0,
        profile_time_ms: 0,
        stable_start_ms: None,
        restart_alarm_set: false,
        disconnect_alarm_set: false,
    }
}

/// A reset was requested.
pub open spec fn reset_noted(v: ReaderView) -> ReaderView {
    ReaderView { restart_requested: true, info_ready: false, profile_ready: false, ..v }
}

/// A profile was loaded or dropped: an event where that changes something.
pub open spec fn ready_step(v: ReaderView, ready: bool) -> Step {
    Step {
        state: ReaderView { profile_ready: ready, ..v },
        effects: if v.profile_ready == ready {
            nothing()
        } else {
            just(EventView::ProfileReadyChanged { ready })
        },
    }
}

/// A boot banner forgets what the machine said before and counts.
pub open spec fn banner_step(v: ReaderView, raw: Seq<char>) -> Step {
    if boot_banner(raw) {
        Step {
            state: ReaderView {
                reset_count: v.reset_count + 1,
                esp_info: None,
                info_requested: false,
                info_ready: false,
                profile_ready: false,
                collecting_trace: false,
                ..v
            },
            effects: ready_step(v, false).effects + just(
                EventView::BootBanner { reset_count: v.reset_count + 1 },
            ),
        }
    } else {
        Step { state: v, effects: nothing() }
    }
}

/// The reset watchdog.
pub open spec fn watchdog_step(v: ReaderView) -> Step {
    if v.reset_count >= RESET_COUNT_FOR_UPDATE {
        Step {
            state: ReaderView { reset_count: 0, ..v },
            effects: just(EventView::FirmwareUpdateRequested),
        }
    } else {
        Step { state: v, effects: nothing() }
    }
}

/// The crash trace: from a crash marker on, every line belongs to it.
pub open spec fn traced(v: ReaderView, raw: Seq<char>) -> ReaderView {
    let collecting = v.collecting_trace || crash_marker(raw);
    ReaderView {
        collecting_trace: collecting,
        trace: if collecting {
            v.trace.push(raw)
        } else {
            v.trace
        },
        ..v
    }
}

/// Machine information is asked for once, when the machine talks and has not
/// sent it.
pub open spec fn request_step(v: ReaderView) -> Step {
    if v.info_ready && !v.info_requested && v.esp_info is None {
        Step {
            state: ReaderView { info_requested: true, ..v },
            effects: seq![EffectView::Send(action_frame("info"@))],
        }
    } else {
        Step { state: v, effects: nothing() }
    }
}

/// A shot starts when the valve is no longer closing.
pub open spec fn starts_shot(v: ReaderView, status: Seq<char>) -> bool {
    v.old_status == status::CLOSING_VALVE@ && status != status::CLOSING_VALVE@
}

/// Whether a running shot goes on. During retraction it does until the weight
/// has been stable for long enough; otherwise it ends on idle, on purge, and
/// when retraction is over.
pub open spec fn keeps_running(v: ReaderView, status: Seq<char>, now: int) -> bool {
    if status == status::RETRACTING@ {
        v.stable_start_ms matches Some(t0) ==> elapsed(now, t0) < STABLE_TIME_THRESHOLD_MS
    } else {
        status != status::IDLE@ && status != status::PURGE@ && v.old_status != status::RETRACTING@
    }
}

/// Since when the weight has been stable, in a shot that goes on.
pub open spec fn stable_since(v: ReaderView, status: Seq<char>, stable: bool, now: int) -> Option<
    int,
> {
    if status != status::RETRACTING@ {
        v.stable_start_ms
    } else if !stable {
        None
    } else if v.stable_start_ms is Some {
        v.stable_start_ms
    } else {
        Some(now)
    }
}

/// The start and the end of a shot.
pub open spec fn extraction_step(v: ReaderView, status: Seq<char>, stable: bool, now: int) -> Step {
    if starts_shot(v, status) {
        Step {
            state: ReaderView { time_flag: true, shot_start_ms: now, ..v },
            effects: just(EventView::ShotStarted),
        }
    } else if !v.time_flag {
        Step { state: v, effects: nothing() }
    } else if keeps_running(v, status, now) {
        Step {
            state: ReaderView { stable_start_ms: stable_since(v, status, stable, now), ..v },
            effects: nothing(),
        }
    } else {
        Step {
            state: ReaderView { time_flag: false, stable_start_ms: None, ..v },
            effects: just(EventView::ShotEnded),
        }
    }
}

/// The machine became idle: the profile is gone.
pub open spec fn idle_step(v: ReaderView, status: Seq<char>) -> Step {
    if status == status::IDLE@ && v.old_status != status::IDLE@ {
        Step {
            state: ready_step(v, false).state,
            effects: ready_step(v, false).effects + just(EventView::WentIdle),
        }
    } else {
        Step { state: v, effects: nothing() }
    }
}

/// Whether the timers start over: the machine leaves idle for a shot, or
/// begins to heat.
pub open spec fn restarts_timers(v: ReaderView, status: Seq<char>) -> bool {
    ||| v.old_status == status::IDLE@ && (status == status::HEATING@ || status
        == status::CLOSING_VALVE@ || status == status::RETRACTING@ || status == status::STARTING@)
    ||| v.old_status != status::HEATING@ && status == status::HEATING@
}

/// The timers, and the beginning and end of heating.
pub open spec fn heating_step(v: ReaderView, status: Seq<char>) -> Step {
    Step {
        state: if restarts_timers(v, status) {
            ReaderView { time_passed_ms: 0, profile_time_ms: 0, ..v }
        } else {
            v
        },
        effects: if status == status::HEATING@ && v.old_status != status::HEATING@ {
            just(EventView::HeatingStarted)
        } else if v.old_status == status::HEATING@ && status != status::HEATING@ {
            just(EventView::HeatingEnded)
        } else {
            nothing()
        },
    }
}

/// The time since the shot started, as far as it can be told.
pub open spec fn shot_time(v: ReaderView, now: int) -> int {
    if elapsed(now, v.shot_start_ms) > i64::MAX {
        i64::MAX as int
    } else {
        elapsed(now, v.shot_start_ms)
    }
}

/// The datapoint is stamped, kept and published.
pub open spec fn stamp_step(v: ReaderView, data: ShotView, now: int) -> Step {
    let time = if v.time_flag {
        shot_time(v, now)
    } else {
        v.time_passed_ms
    };
    let profile_time = if v.time_flag {
        shot_time(v, now)
    } else {
        v.profile_time_ms
    };
    let stamped = data.stamped(time, v.time_flag, profile_time);
    Step {
        state: ReaderView {
            time_passed_ms: time,
            profile_time_ms: profile_time,
            data_sensors: stamped,
            old_status: text_arg(data.status),
            info_ready: true,
            ..v
        },
        effects: just(EventView::Status { data: stamped }),
    }
}

/// What a datapoint does.
pub open spec fn shot_step(v: ReaderView, data: ShotView, now: int) -> Step {
    let status = text_arg(data.status);
    let a = extraction_step(v, status, data.stable_weight, now);
    let b = idle_step(a.state, status);
    let c = heating_step(b.state, status);
    let d = stamp_step(c.state, data, now);
    Step { state: d.state, effects: a.effects + b.effects + c.effects + d.effects }
}

/// What a message does.
pub open spec fn message_step(v: ReaderView, message: Option<MessageView>, now: int) -> Step {
    match message {
        None => Step { state: v, effects: nothing() },
        Some(MessageView::Shot(data)) => shot_step(v, data, now),
        Some(MessageView::Sensors(data)) => Step {
            state: ReaderView { sensors: Some(data), ..v },
            effects: just(EventView::Sensors { data }),
        },
        Some(MessageView::Info(data)) => Step {
            state: ReaderView {
                esp_info: Some(data),
                info_ready: true,
                info_requested: false,
                ..v
            },
            effects: just(EventView::Info { data }),
        },
        Some(MessageView::Button(data)) => Step {
            state: v,
            effects: just(EventView::Button { data }),
        },
        Some(MessageView::Notify(data)) => Step {
            state: v,
            effects: just(EventView::Notify { data }),
        },
        Some(MessageView::HeaterTimeout(data)) => Step {
            state: v,
            effects: just(EventView::HeaterTimeout { data }),
        },
        Some(MessageView::Log(data)) => Step { state: v, effects: just(EventView::EspLog { data }) },
    }
}

/// A valid message ends a requested restart, the count of banners and both
/// alarms.
pub open spec fn valid_step(v: ReaderView, valid: bool, now: int) -> Step {
    if valid {
        Step {
            state: ReaderView {
                last_valid_ms: now,
                restart_requested: false,
                reset_count: 0,
                restart_alarm_set: false,
                disconnect_alarm_set: false,
                ..v
            },
            effects: if v.restart_alarm_set || v.disconnect_alarm_set {
                just(EventView::AlarmsCleared)
            } else {
                nothing()
            },
        }
    } else {
        Step { state: v, effects: nothing() }
    }
}

/// The restart alarm goes up on a banner that nobody asked for, and takes the
/// crash trace along.
pub open spec fn restart_alarm_step(v: ReaderView) -> Step {
    if v.reset_count > 0 && !v.restart_requested && !v.restart_alarm_set {
        Step {
            state: ReaderView {
                restart_alarm_set: true,
                trace: Seq::<Seq<char>>::empty(),
                ..v
            },
            effects: just(
                EventView::AlarmRaised {
                    alarm: AlarmView::EspRestart { trace: join(v.trace, '\n') },
                },
            ),
        }
    } else {
        Step { state: v, effects: nothing() }
    }
}

/// The disconnect alarm goes up on silence.
pub open spec fn disconnect_alarm_step(v: ReaderView, now: int) -> Step {
    if elapsed(now, v.last_valid_ms) > DISCONNECT_TIMEOUT_MS && !v.restart_requested
        && !v.disconnect_alarm_set {
        Step {
            state: ReaderView { disconnect_alarm_set: true, ..v },
            effects: just(EventView::AlarmRaised { alarm: AlarmView::EspDisconnected }),
        }
    } else {
        Step { state: v, effects: nothing() }
    }
}

/// The healthcheck at the end of each line.
pub open spec fn health_step(v: ReaderView, valid: bool, now: int) -> Step {
    let a = valid_step(v, valid, now);
    let b = restart_alarm_step(a.state);
    let c = disconnect_alarm_step(b.state, now);
    Step { state: c.state, effects: a.effects + b.effects + c.effects }
}

/// A line of a known family that is no boot banner.
pub open spec fn is_valid_line(raw: Seq<char>) -> bool {
    !boot_banner(raw) && line_kind(raw) != LineKind::Unrecognized
}

/// What happens before a line is parsed.
pub open spec fn prepare_step(v: ReaderView, raw: Seq<char>) -> Step {
    let a = banner_step(v, raw);
    let b = watchdog_step(a.state);
    let c = request_step(traced(b.state, raw));
    Step { state: c.state, effects: a.effects + b.effects + c.effects }
}

/// What a line does.
#[verifier::opaque]
pub open spec fn line_step(v: ReaderView, raw: Seq<char>, now: int) -> Step {
    let a = prepare_step(v, raw);
    let b = message_step(a.state, line_message(raw), now);
    let c = health_step(b.state, is_valid_line(raw), now);
    Step { state: c.state, effects: a.effects + b.effects + c.effects }
}

/// What a read without a line does: the healthcheck runs alone.
pub open spec fn tick_step(v: ReaderView, now: int) -> Step {
    health_step(v, false, now)
}

// ---------------------------------------------------------------------------
// The state machine
// ---------------------------------------------------------------------------

/// Effects one after another.
proof fn lemma_effects_append(a: Seq<EffectView>, b: Seq<EffectView>, c: Seq<EffectView>)
    ensures
        (a + b) + c == a + (b + c),
{
    assert((a + b) + c =~= a + (b + c));
}

/// A datapoint keeps the state consistent.
pub proof fn lemma_shot_step_consistent(v: ReaderView, data: ShotView, now: int)
    requires
        v.consistent(),
    ensures
        shot_step(v, data, now).state.consistent(),
{
    let status = text_arg(data.status);
    lemma_statuses_differ();
    let a = extraction_step(v, status, data.stable_weight, now).state;
    assert(a.reset_count == v.reset_count && (a.stable_start_ms is Some ==> a.time_flag && status
        == status::RETRACTING@));
    let b = idle_step(a, status).state;
    assert(b.reset_count == v.reset_count && b.stable_start_ms == a.stable_start_ms && b.time_flag
        == a.time_flag);
    let c = heating_step(b, status).state;
    assert(c.reset_count == v.reset_count && c.stable_start_ms == a.stable_start_ms && c.time_flag
        == a.time_flag);
}

/// A retracting machine is neither idle nor purging, and its valve is not
/// closing.
pub proof fn lemma_statuses_differ()
    ensures
        status::RETRACTING@ != status::IDLE@,
        status::RETRACTING@ != status::PURGE@,
        status::RETRACTING@ != status::CLOSING_VALVE@,
{
    reveal_strlit("retracting");
    reveal_strlit("closing valve");
    assert("closing valve"@.len() == 13);
    reveal_strlit("idle");
    reveal_strlit("purge");
    assert("retracting"@.len() == 10);
    assert("idle"@.len() == 4);
    assert("purge"@.len() == 5);
}

/// Adds one event.
fn emit(effects: &mut Vec<Effect>, event: MachineEvent)
    ensures
        effects_of(final(effects)@) == effects_of(old(effects)@) + just(event@),
{
    let ghost before = effects@;
    effects.push(Effect::Event(event));
    assert(effects_of(effects@) =~= effects_of(before) + just(event@));
}

/// Milliseconds from `since` to `now`.
fn millis_between(now: u64, since: u64) -> (r: u64)
    ensures
        r == elapsed(now as int, since as int),
{
    if now >= since {
        now - since
    } else {
        0
    }
}

impl ReaderState {
    /// A fresh state machine; `now_ms` seeds the healthcheck clock.
    pub fn new(now_ms: u64) -> (r: Self)
        ensures
            r@ == fresh(now_ms as int),
            r@.wf(),
    {
        let mut data_sensors = ShotData::default();
        data_sensors.status = Some(owned(status::IDLE));
        data_sensors.profile = Some(owned(status::IDLE));
        let r = ReaderState {
            data_sensors,
            sensors: None,
            esp_info: None,
            info_ready: false,
            profile_ready: false,
            reset_count: 0,
            restart_requested: true,
            info_requested: false,
            collecting_trace: false,
            trace: Vec::new(),
            last_valid_ms: now_ms,
            old_status: owned(status::IDLE),
            time_flag: false,
            shot_start_ms: now_ms,
            time_passed_ms: 0,
            profile_time_ms: 0,
            stable_start_ms: None,
            restart_alarm_set: false,
            disconnect_alarm_set: false,
        };
        assert(r@ =~= fresh(now_ms as int));
        r
    }

    /// Current public state.
    pub fn snapshot(&self) -> (r: MachineSnapshot)
        ensures
            r@ == self@.snapshot(),
    {
        MachineSnapshot {
            data_sensors: self.data_sensors.clone(),
            sensors: clone_sensors(&self.sensors),
            esp_info: clone_info(&self.esp_info),
            info_ready: self.info_ready,
            profile_ready: self.profile_ready,
            reset_count: self.reset_count,
        }
    }

    /// Whether the machine has talked since the last boot.
    pub fn info_ready(&self) -> (r: bool)
        ensures
            r == self@.info_ready,
    {
        self.info_ready
    }

    /// Whether a profile is loaded, which `action,start` asks for.
    pub fn profile_ready(&self) -> (r: bool)
        ensures
            r == self@.profile_ready,
    {
        self.profile_ready
    }

    /// A reset was requested: restart and disconnect alarms stay down until
    /// the machine talks again.
    pub fn note_reset_requested(&mut self)
        ensures
            final(self)@ == reset_noted(old(self)@),
            old(self)@.wf() ==> final(self)@.wf(),
    {
        self.restart_requested = true;
        self.info_ready = false;
        self.profile_ready = false;
    }

    /// Marks a profile as loaded or dropped.
    pub fn set_profile_ready(&mut self, ready: bool) -> (r: Vec<Effect>)
        ensures
            final(self)@ == ready_step(old(self)@, ready).state,
            effects_of(r@) == ready_step(old(self)@, ready).effects,
            old(self)@.wf() ==> final(self)@.wf(),
    {
        let mut effects: Vec<Effect> = Vec::new();
        self.change_ready(ready, &mut effects);
        assert(effects_of(effects@) =~= ready_step(old(self)@, ready).effects);
        effects
    }

    fn change_ready(&mut self, ready: bool, effects: &mut Vec<Effect>)
        ensures
            final(self)@ == ready_step(old(self)@, ready).state,
            effects_of(final(effects)@) == effects_of(old(effects)@) + ready_step(
                old(self)@,
                ready,
            ).effects,
    {
        if self.profile_ready != ready {
            self.profile_ready = ready;
            emit(effects, MachineEvent::ProfileReadyChanged { ready });
        }
        assert(self@ =~= ready_step(old(self)@, ready).state);
        assert(effects_of(effects@) =~= effects_of(old(effects)@) + ready_step(
            old(self)@,
            ready,
        ).effects);
    }

    /// Feeds one decoded line.
    #[verifier::rlimit(40)]
    pub fn handle_line(&mut self, raw: &str, now_ms: u64) -> (r: Vec<Effect>)
        requires
            old(self)@.wf(),
        ensures
            final(self)@ == line_step(old(self)@, raw@, now_ms as int).state,
            effects_of(r@) == line_step(old(self)@, raw@, now_ms as int).effects,
            final(self)@.wf(),
    {
        let ghost v = old(self)@;
        let mut effects: Vec<Effect> = Vec::new();
        self.prepare(raw, &mut effects);
        let ghost a = prepare_step(v, raw@);
        let parsed = parse_line(raw);
        let valid = !is_boot_banner(raw) && !matches!(parsed.kind, LineKind::Unrecognized);
        self.handle_message(parsed.message, now_ms, &mut effects);
        let ghost b = message_step(a.state, line_message(raw@), now_ms as int);
        self.healthcheck(valid, now_ms, &mut effects);
        proof {
            reveal(line_step);
            let c = health_step(b.state, is_valid_line(raw@), now_ms as int);
            let none = effects_of(Seq::<Effect>::empty());
            assert(none + a.effects + b.effects + c.effects =~= a.effects + b.effects + c.effects);
        }
        effects
    }

    /// A read timeout elapsed with no line; only the healthcheck runs.
    pub fn tick(&mut self, now_ms: u64) -> (r: Vec<Effect>)
        requires
            old(self)@.wf(),
        ensures
            final(self)@ == tick_step(old(self)@, now_ms as int).state,
            effects_of(r@) == tick_step(old(self)@, now_ms as int).effects,
            final(self)@.wf(),
    {
        let mut effects: Vec<Effect> = Vec::new();
        self.healthcheck(false, now_ms, &mut effects);
        assert(effects_of(effects@) =~= tick_step(old(self)@, now_ms as int).effects);
        effects
    }

    /// Banners, the watchdog, the crash trace and the request for machine
    /// information.
    #[verifier::rlimit(40)]
    fn prepare(&mut self, raw: &str, effects: &mut Vec<Effect>)
        requires
            old(self)@.consistent(),
        ensures
            final(self)@ == prepare_step(old(self)@, raw@).state,
            effects_of(final(effects)@) == effects_of(old(effects)@) + prepare_step(
                old(self)@,
                raw@,
            ).effects,
            final(self)@.consistent(),
    {
        let ghost v = old(self)@;
        let ghost e0 = effects_of(effects@);
        self.note_banner(raw, effects);
        let ghost a = banner_step(v, raw@);
        self.run_watchdog(effects);
        let ghost b = watchdog_step(a.state);
        self.collect_trace(raw);
        self.request_info(effects);
        proof {
            let c = request_step(traced(b.state, raw@));
            lemma_effects_append(e0, a.effects, b.effects);
            lemma_effects_append(e0, a.effects + b.effects, c.effects);
        }
    }

    /// A boot banner forgets what the machine said before and counts.
    fn note_banner(&mut self, raw: &str, effects: &mut Vec<Effect>)
        requires
            old(self)@.consistent(),
        ensures
            final(self)@ == banner_step(old(self)@, raw@).state,
            effects_of(final(effects)@) == effects_of(old(effects)@) + banner_step(
                old(self)@,
                raw@,
            ).effects,
    {
        let ghost v = old(self)@;
        let ghost e0 = effects_of(effects@);
        if is_boot_banner(raw) {
            self.reset_count = self.reset_count + 1;
            self.esp_info = None;
            self.info_requested = false;
            self.info_ready = false;
            self.collecting_trace = false;
            self.change_ready(false, effects);
            emit(effects, MachineEvent::BootBanner { reset_count: self.reset_count });
        }
        assert(self@ =~= banner_step(v, raw@).state);
        assert(effects_of(effects@) =~= e0 + banner_step(v, raw@).effects);
    }

    /// The reset watchdog.
    fn run_watchdog(&mut self, effects: &mut Vec<Effect>)
        ensures
            final(self)@ == watchdog_step(old(self)@).state,
            effects_of(final(effects)@) == effects_of(old(effects)@) + watchdog_step(
                old(self)@,
            ).effects,
    {
        let ghost e0 = effects_of(effects@);
        if self.reset_count >= RESET_COUNT_FOR_UPDATE {
            emit(effects, MachineEvent::FirmwareUpdateRequested);
            self.reset_count = 0;
        }
        assert(self@ =~= watchdog_step(old(self)@).state);
        assert(effects_of(effects@) =~= e0 + watchdog_step(old(self)@).effects);
    }

    /// The crash trace.
    fn collect_trace(&mut self, raw: &str)
        ensures
            final(self)@ == traced(old(self)@, raw@),
    {
        if has_crash_marker(raw) {
            self.collecting_trace = true;
        }
        if self.collecting_trace {
            let ghost before = self.trace@;
            self.trace.push(owned(raw));
            assert(owned_texts(self.trace@) =~= owned_texts(before).push(raw@));
        }
        assert(self@ =~= traced(old(self)@, raw@));
    }

    /// The request for machine information.
    fn request_info(&mut self, effects: &mut Vec<Effect>)
        ensures
            final(self)@ == request_step(old(self)@).state,
            effects_of(final(effects)@) == effects_of(old(effects)@) + request_step(
                old(self)@,
            ).effects,
    {
        let ghost e0 = effects_of(effects@);
        if self.info_ready && !self.info_requested && self.esp_info.is_none() {
            let ghost before = effects@;
            effects.push(Effect::Send(encode_action("info")));
            assert(effects_of(effects@) =~= effects_of(before).push(
                EffectView::Send(action_frame("info"@)),
            ));
            self.info_requested = true;
        }
        assert(self@ =~= request_step(old(self)@).state);
        assert(effects_of(effects@) =~= e0 + request_step(old(self)@).effects);
    }

    /// What a message does.
    #[verifier::rlimit(40)]
    fn handle_message(
        &mut self,
        message: Option<EspMessage>,
        now_ms: u64,
        effects: &mut Vec<Effect>,
    )
        requires
            old(self)@.consistent(),
        ensures
            final(self)@ == message_step(
                old(self)@,
                opt_message(message),
                now_ms as int,
            ).state,
            effects_of(final(effects)@) == effects_of(old(effects)@) + message_step(
                old(self)@,
                opt_message(message),
                now_ms as int,
            ).effects,
            final(self)@.consistent(),
    {
        match message {
            Some(EspMessage::Shot(data)) => self.handle_shot(data, now_ms, effects),
            Some(EspMessage::Sensors(data)) => {
                self.sensors = Some(data.clone());
                emit(effects, MachineEvent::Sensors { data });
            },
            Some(EspMessage::Info(data)) => {
                self.esp_info = Some(data.clone());
                self.info_ready = true;
                self.info_requested = false;
                emit(effects, MachineEvent::Info { data });
            },
            Some(EspMessage::Button(data)) => {
                emit(effects, MachineEvent::Button { data });
            },
            Some(EspMessage::Notify(data)) => {
                emit(effects, MachineEvent::Notify { data });
            },
            Some(EspMessage::HeaterTimeout(data)) => {
                emit(effects, MachineEvent::HeaterTimeout { data });
            },
            Some(EspMessage::Log(data)) => {
                emit(effects, MachineEvent::EspLog { data });
            },
            None => {
                assert(effects_of(effects@) + nothing() =~= effects_of(effects@));
            },
        }
    }

    /// Shot lifecycle, timers and the stamped datapoint.
    #[verifier::rlimit(40)]
    fn handle_shot(&mut self, data: ShotData, now_ms: u64, effects: &mut Vec<Effect>)
        requires
            old(self)@.consistent(),
        ensures
            final(self)@ == shot_step(old(self)@, data@, now_ms as int).state,
            effects_of(final(effects)@) == effects_of(old(effects)@) + shot_step(
                old(self)@,
                data@,
                now_ms as int,
            ).effects,
            final(self)@.consistent(),
    {
        let ghost v = old(self)@;
        let ghost e0 = effects_of(effects@);
        let status = match &data.status {
            Some(s) => s.clone(),
            None => String::new(),
        };
        assert(status@ == text_arg(data@.status));
        self.track_extraction(status.as_str(), data.stable_weight, now_ms, effects);
        let ghost a = extraction_step(v, status@, data.stable_weight, now_ms as int);
        self.track_idle(status.as_str(), effects);
        let ghost b = idle_step(a.state, status@);
        self.track_heating(status.as_str(), effects);
        let ghost c = heating_step(b.state, status@);
        self.stamp(data, now_ms, effects);
        proof {
            let d = stamp_step(c.state, data@, now_ms as int);
            lemma_effects_append(e0, a.effects, b.effects);
            lemma_effects_append(e0, a.effects + b.effects, c.effects);
            lemma_effects_append(e0, a.effects + b.effects + c.effects, d.effects);
            lemma_shot_step_consistent(v, data@, now_ms as int);
        }
    }

    /// The start and the end of a shot.
    #[verifier::rlimit(40)]
    fn track_extraction(
        &mut self,
        status: &str,
        stable: bool,
        now_ms: u64,
        effects: &mut Vec<Effect>,
    )
        ensures
            final(self)@ == extraction_step(old(self)@, status@, stable, now_ms as int).state,
            effects_of(final(effects)@) == effects_of(old(effects)@) + extraction_step(
                old(self)@,
                status@,
                stable,
                now_ms as int,
            ).effects,
    {
        let ghost v = old(self)@;
        let ghost e0 = effects_of(effects@);
        proof {
            lemma_statuses_differ();
        }
        let retracting = same_text(status, status::RETRACTING);
        if same_text(self.old_status.as_str(), status::CLOSING_VALVE) && !same_text(
            status,
            status::CLOSING_VALVE,
        ) {
            self.time_flag = true;
            self.shot_start_ms = now_ms;
            emit(effects, MachineEvent::ShotStarted);
        } else if self.time_flag {
            if same_text(status, status::IDLE) || same_text(status, status::PURGE) {
                self.time_flag = false;
            }
            if same_text(self.old_status.as_str(), status::RETRACTING) && !retracting {
                self.time_flag = false;
            }
            if retracting {
                match self.stable_start_ms {
                    Some(t0) => {
                        self.time_flag = millis_between(now_ms, t0) < STABLE_TIME_THRESHOLD_MS;
                        if !stable {
                            self.stable_start_ms = None;
                        }
                    },
                    None => {
                        if stable {
                            self.stable_start_ms = Some(now_ms);
                        }
                    },
                }
            }
            if !self.time_flag {
                self.stable_start_ms = None;
                emit(effects, MachineEvent::ShotEnded);
            }
        }
        assert(self@ =~= extraction_step(v, status@, stable, now_ms as int).state);
        assert(effects_of(effects@) =~= e0 + extraction_step(
            v,
            status@,
            stable,
            now_ms as int,
        ).effects);
    }

    /// The machine became idle.
    #[verifier::rlimit(40)]
    fn track_idle(&mut self, status: &str, effects: &mut Vec<Effect>)
        ensures
            final(self)@ == idle_step(old(self)@, status@).state,
            effects_of(final(effects)@) == effects_of(old(effects)@) + idle_step(
                old(self)@,
                status@,
            ).effects,
    {
        let ghost e0 = effects_of(effects@);
        if same_text(status, status::IDLE) && !same_text(self.old_status.as_str(), status::IDLE) {
            self.change_ready(false, effects);
            emit(effects, MachineEvent::WentIdle);
        }
        assert(effects_of(effects@) =~= e0 + idle_step(old(self)@, status@).effects);
    }

    /// The timers, and the beginning and end of heating.
    #[verifier::rlimit(40)]
    fn track_heating(&mut self, status: &str, effects: &mut Vec<Effect>)
        ensures
            final(self)@ == heating_step(old(self)@, status@).state,
            effects_of(final(effects)@) == effects_of(old(effects)@) + heating_step(
                old(self)@,
                status@,
            ).effects,
    {
        let heating = same_text(status, status::HEATING);
        let was_heating = same_text(self.old_status.as_str(), status::HEATING);
        self.restart_timers(status, heating, was_heating);
        if heating && !was_heating {
            emit(effects, MachineEvent::HeatingStarted);
        } else if was_heating && !heating {
            emit(effects, MachineEvent::HeatingEnded);
        } else {
            assert(effects_of(effects@) + nothing() =~= effects_of(effects@));
        }
    }

    /// Starts the timers over where a shot or heating begins.
    fn restart_timers(&mut self, status: &str, heating: bool, was_heating: bool)
        requires
            heating == (status@ == status::HEATING@),
            was_heating == (old(self)@.old_status == status::HEATING@),
        ensures
            final(self)@ == heating_step(old(self)@, status@).state,
    {
        let leaves_idle = same_text(self.old_status.as_str(), status::IDLE) && (heating
            || same_text(status, status::CLOSING_VALVE) || same_text(status, status::RETRACTING)
            || same_text(status, status::STARTING));
        if leaves_idle || (heating && !was_heating) {
            self.time_passed_ms = 0;
            self.profile_time_ms = 0;
        }
        assert(self@ =~= heating_step(old(self)@, status@).state);
    }

    /// Stamps, keeps and publishes the datapoint.
    #[verifier::rlimit(40)]
    fn stamp(&mut self, data: ShotData, now_ms: u64, effects: &mut Vec<Effect>)
        ensures
            final(self)@ == stamp_step(old(self)@, data@, now_ms as int).state,
            effects_of(final(effects)@) == effects_of(old(effects)@) + stamp_step(
                old(self)@,
                data@,
                now_ms as int,
            ).effects,
    {
        if self.time_flag {
            let passed = millis_between(now_ms, self.shot_start_ms);
            self.time_passed_ms = if passed > 0x7fff_ffff_ffff_ffff {
                i64::MAX
            } else {
                passed as i64
            };
            self.profile_time_ms = self.time_passed_ms;
        }
        let stamped = data.clone_with_time_and_state(
            self.time_passed_ms,
            self.time_flag,
            self.profile_time_ms,
        );
        self.data_sensors = stamped.clone();
        self.old_status = match data.status {
            Some(s) => s,
            None => String::new(),
        };
        self.info_ready = true;
        emit(effects, MachineEvent::Status { data: stamped });
        assert(self@ =~= stamp_step(old(self)@, data@, now_ms as int).state);
    }

    /// The healthcheck at the end of each line.
    #[verifier::rlimit(40)]
    fn healthcheck(&mut self, got_valid: bool, now_ms: u64, effects: &mut Vec<Effect>)
        requires
            old(self)@.consistent(),
        ensures
            final(self)@ == health_step(old(self)@, got_valid, now_ms as int).state,
            effects_of(final(effects)@) == effects_of(old(effects)@) + health_step(
                old(self)@,
                got_valid,
                now_ms as int,
            ).effects,
            final(self)@.wf(),
    {
        let ghost v = old(self)@;
        let ghost e0 = effects_of(effects@);
        self.note_valid(got_valid, now_ms, effects);
        let ghost a = valid_step(v, got_valid, now_ms as int);
        self.check_restart(effects);
        let ghost b = restart_alarm_step(a.state);
        self.check_silence(now_ms, effects);
        proof {
            let c = disconnect_alarm_step(b.state, now_ms as int);
            lemma_effects_append(e0, a.effects, b.effects);
            lemma_effects_append(e0, a.effects + b.effects, c.effects);
        }
    }

    /// What a valid message ends.
    fn note_valid(&mut self, got_valid: bool, now_ms: u64, effects: &mut Vec<Effect>)
        ensures
            final(self)@ == valid_step(old(self)@, got_valid, now_ms as int).state,
            effects_of(final(effects)@) == effects_of(old(effects)@) + valid_step(
                old(self)@,
                got_valid,
                now_ms as int,
            ).effects,
    {
        let ghost e0 = effects_of(effects@);
        if got_valid {
            self.last_valid_ms = now_ms;
            self.restart_requested = false;
            self.reset_count = 0;
            if self.restart_alarm_set || self.disconnect_alarm_set {
                self.restart_alarm_set = false;
                self.disconnect_alarm_set = false;
                emit(effects, MachineEvent::AlarmsCleared);
            }
        }
        assert(self@ =~= valid_step(old(self)@, got_valid, now_ms as int).state);
        assert(effects_of(effects@) =~= e0 + valid_step(
            old(self)@,
            got_valid,
            now_ms as int,
        ).effects);
    }

    /// The restart alarm.
    fn check_restart(&mut self, effects: &mut Vec<Effect>)
        ensures
            final(self)@ == restart_alarm_step(old(self)@).state,
            effects_of(final(effects)@) == effects_of(old(effects)@) + restart_alarm_step(
                old(self)@,
            ).effects,
    {
        let ghost e0 = effects_of(effects@);
        if self.reset_count > 0 && !self.restart_requested && !self.restart_alarm_set {
            self.restart_alarm_set = true;
            let trace = join_owned(&self.trace, '\n');
            self.trace = Vec::new();
            emit(effects, MachineEvent::AlarmRaised { alarm: Alarm::EspRestart { trace } });
        }
        assert(self@ =~= restart_alarm_step(old(self)@).state);
        assert(effects_of(effects@) =~= e0 + restart_alarm_step(old(self)@).effects);
    }

    /// The disconnect alarm.
    fn check_silence(&mut self, now_ms: u64, effects: &mut Vec<Effect>)
        ensures
            final(self)@ == disconnect_alarm_step(old(self)@, now_ms as int).state,
            effects_of(final(effects)@) == effects_of(old(effects)@) + disconnect_alarm_step(
                old(self)@,
                now_ms as int,
            ).effects,
    {
        let ghost e0 = effects_of(effects@);
        if millis_between(now_ms, self.last_valid_ms) > DISCONNECT_TIMEOUT_MS
            && !self.restart_requested && !self.disconnect_alarm_set {
            self.disconnect_alarm_set = true;
            emit(effects, MachineEvent::AlarmRaised { alarm: Alarm::EspDisconnected });
        }
        assert(self@ =~= disconnect_alarm_step(old(self)@, now_ms as int).state);
        assert(effects_of(effects@) =~= e0 + disconnect_alarm_step(
            old(self)@,
            now_ms as int,
        ).effects);
    }
}

impl ReaderView {
    /// The public part of the state.
    pub open spec fn snapshot(self) -> SnapshotView {
        SnapshotView {
            data_sensors: self.data_sensors,
            sensors: self.sensors,
            esp_info: self.esp_info,
            info_ready: self.info_ready,
            profile_ready: self.profile_ready,
            reset_count: self.reset_count,
        }
    }
}

}
