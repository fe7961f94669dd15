//! The daemon between the port and its clients: what each command, each read
//! and the alive check make it do. Performing the outputs is left to the
//! caller.

use crate::command::{
    action_frame, encode_action, encode_json_with_hash, json_hash, json_text, profile_frame,
    EspAction,
};
use crate::encoding::decode_strict;
use crate::events::{EventView, MachineEvent};
use crate::reader::{
    effects_of, fresh, line_step, ready_step, reset_noted, tick_step, Effect, EffectView,
    MachineSnapshot, ReaderState, ReaderView,
};
use crate::reader_laws::{
    law_lines_keep_the_invariant, law_lines_tell_no_boot_silence, lemma_just, publishes,
};
use crate::transport::{OutcomeView, ReadOutcome};
use vstd::prelude::*;
use vstd::utf8::{decode_utf8, valid_utf8};

verus! {

/// How long after startup machine information must have come, in seconds.
pub const ALIVE_CHECK_DELAY_SECS: u64 = 60;

/// Commands that the outside world can send.
#[derive(Debug)]
pub enum DaemonCommand {
    /// Send an action to the chip. `Start` without a loaded profile is refused
    /// with a [`MachineEvent::ProfileRequired`] event.
    Action(EspAction),
    /// Stream a profile.
    SendProfile(serde_json::Value),
    /// Write raw bytes.
    WriteRaw(Vec<u8>),
    /// Reset the chip.
    Reset {
        /// Enter the serial bootloader instead of the firmware.
        bootloader: bool,
    },
    /// Hand the port over for flashing.
    ReleasePort {
        /// Put the chip in the bootloader before.
        bootloader: bool,
    },
    /// Use the port again after [`DaemonCommand::ReleasePort`].
    AcquirePort,
    /// Stop reading and writing the port.
    Pause,
    /// Resume after [`DaemonCommand::Pause`].
    Resume,
}

/// What a [`DaemonCommand`] holds.
pub enum CommandView {
    Action(EspAction),
    SendProfile(serde_json::Value),
    WriteRaw(Seq<u8>),
    Reset { bootloader: bool },
    ReleasePort { bootloader: bool },
    AcquirePort,
    Pause,
    Resume,
}

impl View for DaemonCommand {
    type V = CommandView;

    open spec fn view(&self) -> CommandView {
        match self {
            DaemonCommand::Action(action) => CommandView::Action(*action),
            DaemonCommand::SendProfile(json) => CommandView::SendProfile(*json),
            DaemonCommand::WriteRaw(bytes) => CommandView::WriteRaw(bytes@),
            DaemonCommand::Reset { bootloader } => CommandView::Reset { bootloader: *bootloader },
            DaemonCommand::ReleasePort { bootloader } => CommandView::ReleasePort {
                bootloader: *bootloader,
            },
            DaemonCommand::AcquirePort => CommandView::AcquirePort,
            DaemonCommand::Pause => CommandView::Pause,
            DaemonCommand::Resume => CommandView::Resume,
        }
    }
}

/// Options of the daemon.
#[derive(Debug, Clone, Copy, PartialEq, Eq, Structural)]
pub struct DaemonOptions {
    /// Delay before the check that machine information has come, in seconds.
    pub alive_check_delay_secs: u64,
}

impl Default for DaemonOptions {
    fn default() -> (r: Self)
        ensures
            r.alive_check_delay_secs == ALIVE_CHECK_DELAY_SECS,
    {
        DaemonOptions { alive_check_delay_secs: ALIVE_CHECK_DELAY_SECS }
    }
}

/// What the caller must do, in order.
#[derive(Debug)]
pub enum Output {
    /// Write these bytes to the chip; a failure is only logged.
    Write(Vec<u8>),
    /// Write a profile frame to the chip; on success report back with
    /// [`Daemon::profile_written`].
    WriteProfile {
        /// The bytes.
        frame: Vec<u8>,
        /// The hash of the profile.
        hash: String,
    },
    /// Publish this event.
    Publish(MachineEvent),
    /// Run the reset sequence.
    Reset {
        /// Enter the serial bootloader.
        bootloader: bool,
    },
}

/// What an [`Output`] holds.
pub enum OutputView {
    Write(Seq<u8>),
    WriteProfile { frame: Seq<u8>, hash: Seq<char> },
    Publish(EventView),
    Reset { bootloader: bool },
}

impl View for Output {
    type V = OutputView;

    open spec fn view(&self) -> OutputView {
        match self {
            Output::Write(bytes) => OutputView::Write(bytes@),
            Output::WriteProfile { frame, hash } => OutputView::WriteProfile {
                frame: frame@,
                hash: hash@,
            },
            Output::Publish(event) => OutputView::Publish(event@),
            Output::Reset { bootloader } => OutputView::Reset { bootloader: *bootloader },
        }
    }
}

/// The outputs behind a list.
pub open spec fn outputs_of(outputs: Seq<Output>) -> Seq<OutputView> {
    Seq::new(outputs.len(), |i: int| outputs[i]@)
}

/// The daemon.
#[derive(Debug)]
pub struct Daemon {
    state: ReaderState,
    paused: bool,
    alive_checked: bool,
    finished: bool,
}

/// What a [`Daemon`] holds.
pub struct DaemonView {
    /// The read loop.
    pub state: ReaderView,
    /// The port is not used.
    pub paused: bool,
    /// The alive check has run.
    pub alive_checked: bool,
    /// No command will come any more, and nothing more is done.
    pub finished: bool,
}

impl View for Daemon {
    type V = DaemonView;

    closed spec fn view(&self) -> DaemonView {
        DaemonView {
            state: self.state@,
            paused: self.paused,
            alive_checked: self.alive_checked,
            finished: self.finished,
        }
    }
}

/// A daemon and its outputs on the way to it.
pub struct DaemonStep {
    pub daemon: DaemonView,
    pub outputs: Seq<OutputView>,
}

/// The output of one effect: an event is published, and bytes are written
/// unless the port is not used.
pub open spec fn effect_output(effect: EffectView, paused: bool) -> Seq<OutputView> {
    match effect {
        EffectView::Send(bytes) => if paused {
            Seq::<OutputView>::empty()
        } else {
            seq![OutputView::Write(bytes)]
        },
        EffectView::Event(event) => seq![OutputView::Publish(event)],
    }
}

/// The outputs of effects, in order.
pub open spec fn effect_outputs(effects: Seq<EffectView>, paused: bool) -> Seq<OutputView>
    decreases effects.len(),
{
    if effects.len() == 0 {
        Seq::<OutputView>::empty()
    } else {
        effect_outputs(effects.drop_last(), paused) + effect_output(effects.last(), paused)
    }
}

/// A write, unless the port is not used.
pub open spec fn write_unless(paused: bool, bytes: Seq<u8>) -> Seq<OutputView> {
    if paused {
        Seq::<OutputView>::empty()
    } else {
        seq![OutputView::Write(bytes)]
    }
}

/// What an action does. A start needs a profile; homing and purging count as
/// one.
pub open spec fn action_step(v: DaemonView, action: EspAction) -> DaemonStep {
    if action == EspAction::Start && !v.state.profile_ready {
        DaemonStep { daemon: v, outputs: seq![OutputView::Publish(EventView::ProfileRequired)] }
    } else if action == EspAction::Home || action == EspAction::Purge {
        let ready = ready_step(v.state, true);
        DaemonStep {
            daemon: DaemonView { state: ready.state, ..v },
            outputs: effect_outputs(ready.effects, v.paused) + write_unless(
                v.paused,
                action_frame(action.wire_text()),
            ),
        }
    } else {
        DaemonStep {
            daemon: v,
            outputs: write_unless(v.paused, action_frame(action.wire_text())),
        }
    }
}

/// What a command does.
pub open spec fn command_step(v: DaemonView, command: DaemonCommand) -> DaemonStep {
    match command {
        DaemonCommand::Action(action) => action_step(v, action),
        DaemonCommand::SendProfile(json) => DaemonStep {
            daemon: v,
            outputs: if v.paused {
                Seq::<OutputView>::empty()
            } else {
                seq![
                    OutputView::WriteProfile {
                        frame: profile_frame(json_text(json), json_hash(json_text(json))),
                        hash: json_hash(json_text(json)),
                    },
                ]
            },
        },
        DaemonCommand::WriteRaw(bytes) => DaemonStep {
            daemon: v,
            outputs: write_unless(v.paused, bytes@),
        },
        DaemonCommand::Reset { bootloader } => DaemonStep {
            daemon: DaemonView { state: reset_noted(v.state), ..v },
            outputs: seq![OutputView::Reset { bootloader }],
        },
        DaemonCommand::ReleasePort { bootloader } => DaemonStep {
            daemon: DaemonView {
                state: if bootloader {
                    reset_noted(v.state)
                } else {
                    v.state
                },
                paused: true,
                ..v
            },
            outputs: if bootloader {
                seq![
                    OutputView::Reset { bootloader: true },
                    OutputView::Publish(EventView::PortReleased { bootloader }),
                ]
            } else {
                seq![OutputView::Publish(EventView::PortReleased { bootloader })]
            },
        },
        DaemonCommand::AcquirePort => DaemonStep {
            daemon: DaemonView { paused: false, ..v },
            outputs: seq![OutputView::Publish(EventView::PortResumed)],
        },
        DaemonCommand::Pause => DaemonStep {
            daemon: DaemonView { paused: true, ..v },
            outputs: Seq::<OutputView>::empty(),
        },
        DaemonCommand::Resume => DaemonStep {
            daemon: DaemonView { paused: false, ..v },
            outputs: Seq::<OutputView>::empty(),
        },
    }
}

/// What follows the write of a profile: it is loaded.
pub open spec fn profile_step(v: DaemonView, hash: Seq<char>) -> DaemonStep {
    let ready = ready_step(v.state, true);
    DaemonStep {
        daemon: DaemonView { state: ready.state, ..v },
        outputs: effect_outputs(ready.effects, v.paused).push(
            OutputView::Publish(EventView::ProfileSent { hash }),
        ),
    }
}

/// What a read attempt does. A line that is no text is dropped; without a line
/// the healthcheck runs.
pub open spec fn read_step(v: DaemonView, outcome: OutcomeView, now: int) -> DaemonStep {
    match outcome {
        OutcomeView::Line(bytes) => if valid_utf8(bytes) {
            let step = line_step(v.state, decode_utf8(bytes), now);
            DaemonStep {
                daemon: DaemonView { state: step.state, ..v },
                outputs: effect_outputs(step.effects, v.paused),
            }
        } else {
            DaemonStep { daemon: v, outputs: Seq::<OutputView>::empty() }
        },
        _ => {
            let step = tick_step(v.state, now);
            DaemonStep {
                daemon: DaemonView { state: step.state, ..v },
                outputs: effect_outputs(step.effects, v.paused),
            }
        },
    }
}

/// What the alive check does: it tells, once, where the machine has not
/// talked.
pub open spec fn alive_step(v: DaemonView) -> DaemonStep {
    DaemonStep {
        daemon: DaemonView { alive_checked: true, ..v },
        outputs: if v.alive_checked || v.state.info_ready {
            Seq::<OutputView>::empty()
        } else {
            seq![OutputView::Publish(EventView::EspSilentAfterBoot)]
        },
    }
}

/// What happens to the daemon.
#[derive(Debug)]
pub enum LoopEvent {
    /// A command came.
    Command(DaemonCommand),
    /// No command will come any more.
    CommandsClosed,
    /// A read attempt ended.
    Read {
        /// How it ended.
        outcome: ReadOutcome,
        /// When it ended.
        now_ms: u64,
    },
    /// The time of the alive check has come.
    AliveCheck,
    /// A profile was written.
    ProfileWritten {
        /// The hash of the profile.
        hash: String,
    },
}

/// The daemon at startup.
pub open spec fn initial() -> DaemonView {
    DaemonView { state: fresh(0), paused: false, alive_checked: false, finished: false }
}

/// What one event does.
pub open spec fn loop_step(v: DaemonView, event: LoopEvent) -> DaemonStep {
    if v.finished {
        DaemonStep { daemon: v, outputs: Seq::<OutputView>::empty() }
    } else {
        match event {
            LoopEvent::Command(command) => command_step(v, command),
            LoopEvent::CommandsClosed => DaemonStep {
                daemon: DaemonView { finished: true, ..v },
                outputs: Seq::<OutputView>::empty(),
            },
            LoopEvent::Read { outcome, now_ms } => read_step(v, outcome@, now_ms as int),
            LoopEvent::AliveCheck => alive_step(v),
            LoopEvent::ProfileWritten { hash } => profile_step(v, hash@),
        }
    }
}

/// The daemon after the events.
pub open spec fn daemon_after(events: Seq<LoopEvent>) -> DaemonView
    decreases events.len(),
{
    if events.len() == 0 {
        initial()
    } else {
        loop_step(daemon_after(events.drop_last()), events.last()).daemon
    }
}

/// The writes at startup.
pub open spec fn startup_outputs() -> Seq<OutputView> {
    Seq::new(startup_frames().len(), |i: int| OutputView::Write(startup_frames()[i]))
}

/// What the daemon does from its start through the events, in order.
pub open spec fn outputs_after(events: Seq<LoopEvent>) -> Seq<OutputView>
    decreases events.len(),
{
    if events.len() == 0 {
        startup_outputs()
    } else {
        outputs_after(events.drop_last()) + loop_step(
            daemon_after(events.drop_last()),
            events.last(),
        ).outputs
    }
}

/// What is written when the daemon starts: the line discipline is woken and
/// machine information is asked for.
pub open spec fn startup_frames() -> Seq<Seq<u8>> {
    seq![seq![0x33u8, 0x32u8, 0x0au8], seq![0x03u8], action_frame("info"@)]
}

/// The byte strings behind a list.
pub open spec fn frames_of(frames: Seq<Vec<u8>>) -> Seq<Seq<u8>> {
    Seq::new(frames.len(), |i: int| frames[i]@)
}

/// Adds what the caller must do for the effects.
fn add_effects(outputs: &mut Vec<Output>, effects: Vec<Effect>, paused: bool)
    ensures
        outputs_of(final(outputs)@) == outputs_of(old(outputs)@) + effect_outputs(
            effects_of(effects@),
            paused,
        ),
{
    let ghost all = effects_of(effects@);
    let ghost start = outputs_of(outputs@);
    assert(all.take(0) =~= Seq::<EffectView>::empty());
    assert(outputs_of(outputs@) =~= start + effect_outputs(all.take(0), paused));
    for effect in it: effects
        invariant
            it.seq() == effects@,
            all == effects_of(effects@),
            outputs_of(outputs@) == start + effect_outputs(all.take(it.index()), paused),
    {
        let ghost n = it.index();
        let ghost before = outputs_of(outputs@);
        let ghost shown = effect@;
        assert(all.take(n + 1).drop_last() =~= all.take(n));
        assert(all.take(n + 1).last() == shown);
        match effect {
            Effect::Send(bytes) => {
                if !paused {
                    outputs.push(Output::Write(bytes));
                }
            },
            Effect::Event(event) => {
                outputs.push(Output::Publish(event));
            },
        }
        assert(outputs_of(outputs@) =~= before + effect_output(shown, paused));
        assert(outputs_of(outputs@) =~= start + effect_outputs(all.take(n + 1), paused));
    }
    assert(all.take(all.len() as int) =~= all);
}

/// Adds one output.
fn add_output(outputs: &mut Vec<Output>, output: Output)
    ensures
        outputs_of(final(outputs)@) == outputs_of(old(outputs)@).push(output@),
{
    let ghost before = outputs@;
    outputs.push(output);
    assert(outputs_of(outputs@) =~= outputs_of(before).push(output@));
}

impl Daemon {
    /// A daemon at startup.
    pub fn new() -> (r: Self)
        ensures
            r@ == initial(),
            r@.state.wf(),
    {
        Daemon {
            state: ReaderState::new(0),
            paused: false,
            alive_checked: false,
            finished: false,
        }
    }

    /// What is written when the daemon starts.
    pub fn startup_writes() -> (r: Vec<Vec<u8>>)
        ensures
            frames_of(r@) == startup_frames(),
    {
        let mut frames: Vec<Vec<u8>> = Vec::new();
        let wake: Vec<u8> = vec![0x33, 0x32, 0x0a];
        let flush: Vec<u8> = vec![0x03];
        frames.push(wake);
        frames.push(flush);
        frames.push(encode_action("info"));
        assert(wake@ =~= seq![0x33u8, 0x32u8, 0x0au8]);
        assert(flush@ =~= seq![0x03u8]);
        assert(frames_of(frames@) =~= startup_frames());
        frames
    }

    /// Current public state.
    pub fn snapshot(&self) -> (r: MachineSnapshot)
        ensures
            r@ == self@.state.snapshot(),
    {
        self.state.snapshot()
    }

    /// While the port is not used, only commands are served.
    pub fn is_paused(&self) -> (r: bool)
        ensures
            r == self@.paused,
    {
        self.paused
    }

    /// Whether the loop is over.
    pub fn is_finished(&self) -> (r: bool)
        ensures
            r == self@.finished,
    {
        self.finished
    }

    /// Serves whatever happened; nothing once the loop is over.
    pub fn on_event(&mut self, event: LoopEvent) -> (r: Vec<Output>)
        requires
            old(self)@.state.wf(),
        ensures
            final(self)@ == loop_step(old(self)@, event).daemon,
            outputs_of(r@) == loop_step(old(self)@, event).outputs,
            final(self)@.state.wf(),
    {
        if self.finished {
            let outputs: Vec<Output> = Vec::new();
            assert(outputs_of(outputs@) =~= Seq::<OutputView>::empty());
            return outputs;
        }
        match event {
            LoopEvent::Command(command) => self.on_command(command),
            LoopEvent::CommandsClosed => {
                self.finished = true;
                let outputs: Vec<Output> = Vec::new();
                assert(outputs_of(outputs@) =~= Seq::<OutputView>::empty());
                outputs
            },
            LoopEvent::Read { outcome, now_ms } => self.on_read(outcome, now_ms),
            LoopEvent::AliveCheck => self.on_alive_check(),
            LoopEvent::ProfileWritten { hash } => self.profile_written(hash),
        }
    }

    /// Whether the alive check is still to come.
    pub fn alive_check_due(&self) -> (r: bool)
        ensures
            r == !self@.alive_checked,
    {
        !self.alive_checked
    }

    /// Serves one command.
    #[verifier::rlimit(40)]
    pub fn on_command(&mut self, command: DaemonCommand) -> (r: Vec<Output>)
        ensures
            final(self)@ == command_step(old(self)@, command).daemon,
            outputs_of(r@) == command_step(old(self)@, command).outputs,
            old(self)@.state.wf() ==> final(self)@.state.wf(),
    {
        let mut outputs: Vec<Output> = Vec::new();
        match command {
            DaemonCommand::Action(action) => {
                return self.on_action(action);
            },
            DaemonCommand::SendProfile(json) => {
                let (frame, hash) = encode_json_with_hash(&json);
                if !self.paused {
                    add_output(&mut outputs, Output::WriteProfile { frame, hash });
                }
            },
            DaemonCommand::WriteRaw(bytes) => {
                if !self.paused {
                    add_output(&mut outputs, Output::Write(bytes));
                }
            },
            DaemonCommand::Reset { bootloader } => {
                self.state.note_reset_requested();
                add_output(&mut outputs, Output::Reset { bootloader });
            },
            DaemonCommand::ReleasePort { bootloader } => {
                if bootloader {
                    self.state.note_reset_requested();
                    add_output(&mut outputs, Output::Reset { bootloader: true });
                }
                add_output(
                    &mut outputs,
                    Output::Publish(MachineEvent::PortReleased { bootloader }),
                );
                self.paused = true;
            },
            DaemonCommand::AcquirePort => {
                add_output(&mut outputs, Output::Publish(MachineEvent::PortResumed));
                self.paused = false;
            },
            DaemonCommand::Pause => {
                self.paused = true;
            },
            DaemonCommand::Resume => {
                self.paused = false;
            },
        }
        assert(outputs_of(outputs@) =~= command_step(old(self)@, command).outputs);
        outputs
    }

    /// Serves one action.
    #[verifier::rlimit(40)]
    fn on_action(&mut self, action: EspAction) -> (r: Vec<Output>)
        ensures
            final(self)@ == action_step(old(self)@, action).daemon,
            outputs_of(r@) == action_step(old(self)@, action).outputs,
            old(self)@.state.wf() ==> final(self)@.state.wf(),
    {
        let mut outputs: Vec<Output> = Vec::new();
        if action == EspAction::Start && !self.state.profile_ready() {
            add_output(&mut outputs, Output::Publish(MachineEvent::ProfileRequired));
            assert(outputs_of(outputs@) =~= action_step(old(self)@, action).outputs);
            return outputs;
        }
        if action == EspAction::Home || action == EspAction::Purge {
            let effects = self.state.set_profile_ready(true);
            add_effects(&mut outputs, effects, self.paused);
        }
        if !self.paused {
            add_output(&mut outputs, Output::Write(encode_action(action.wire_name())));
        }
        assert(outputs_of(outputs@) =~= action_step(old(self)@, action).outputs);
        outputs
    }

    /// The profile with this hash was written.
    pub fn profile_written(&mut self, hash: String) -> (r: Vec<Output>)
        ensures
            final(self)@ == profile_step(old(self)@, hash@).daemon,
            outputs_of(r@) == profile_step(old(self)@, hash@).outputs,
            old(self)@.state.wf() ==> final(self)@.state.wf(),
    {
        let mut outputs: Vec<Output> = Vec::new();
        let effects = self.state.set_profile_ready(true);
        add_effects(&mut outputs, effects, self.paused);
        add_output(&mut outputs, Output::Publish(MachineEvent::ProfileSent { hash }));
        assert(outputs_of(outputs@) =~= profile_step(old(self)@, hash@).outputs);
        outputs
    }

    /// Serves one read attempt.
    pub fn on_read(&mut self, outcome: ReadOutcome, now_ms: u64) -> (r: Vec<Output>)
        requires
            old(self)@.state.wf(),
        ensures
            final(self)@ == read_step(old(self)@, outcome@, now_ms as int).daemon,
            outputs_of(r@) == read_step(old(self)@, outcome@, now_ms as int).outputs,
            final(self)@.state.wf(),
    {
        let mut outputs: Vec<Output> = Vec::new();
        let effects = match outcome {
            ReadOutcome::Line(bytes) => match decode_strict(bytes) {
                Some(line) => self.state.handle_line(line.as_str(), now_ms),
                None => {
                    assert(outputs_of(outputs@) =~= Seq::<OutputView>::empty());
                    return outputs;
                },
            },
            ReadOutcome::Timeout => self.state.tick(now_ms),
            ReadOutcome::Error(_) => self.state.tick(now_ms),
        };
        add_effects(&mut outputs, effects, self.paused);
        assert(outputs_of(outputs@) =~= read_step(old(self)@, outcome@, now_ms as int).outputs);
        outputs
    }

    /// Runs the alive check.
    pub fn on_alive_check(&mut self) -> (r: Vec<Output>)
        ensures
            final(self)@ == alive_step(old(self)@).daemon,
            outputs_of(r@) == alive_step(old(self)@).outputs,
            old(self)@.state.wf() ==> final(self)@.state.wf(),
    {
        let mut outputs: Vec<Output> = Vec::new();
        if !self.alive_checked && !self.state.info_ready() {
            add_output(&mut outputs, Output::Publish(MachineEvent::EspSilentAfterBoot));
        }
        self.alive_checked = true;
        assert(outputs_of(outputs@) =~= alive_step(old(self)@).outputs);
        outputs
    }
}

// ---------------------------------------------------------------------------
// Laws
// ---------------------------------------------------------------------------

/// Nothing is written to the port.
pub open spec fn writes_nothing(outputs: Seq<OutputView>) -> bool {
    forall|i: int|
        0 <= i < outputs.len() ==> !(#[trigger] outputs[i] is Write) && !(outputs[i]
            is WriteProfile)
}

/// Effects write nothing while the port is not used.
proof fn lemma_paused_effects(effects: Seq<EffectView>)
    ensures
        writes_nothing(effect_outputs(effects, true)),
    decreases effects.len(),
{
    if effects.len() > 0 {
        lemma_paused_effects(effects.drop_last());
    }
}

/// While the port is not used, nothing is written to it, whatever comes.
pub proof fn law_a_released_port_is_not_written(
    v: DaemonView,
    command: DaemonCommand,
    outcome: OutcomeView,
    now: int,
    hash: Seq<char>,
)
    requires
        v.paused,
    ensures
        writes_nothing(command_step(v, command).outputs),
        writes_nothing(read_step(v, outcome, now).outputs),
        writes_nothing(profile_step(v, hash).outputs),
        writes_nothing(alive_step(v).outputs),
{
    lemma_paused_effects(ready_step(v.state, true).effects);
    lemma_paused_effects(tick_step(v.state, now).effects);
    if let OutcomeView::Line(bytes) = outcome {
        lemma_paused_effects(line_step(v.state, decode_utf8(bytes), now).effects);
    }
    reveal_with_fuel(effect_outputs, 2);
}

/// The flashing handshake: releasing the port tells that it is released and
/// leaves it unused, acquiring it tells that it is in use again and serves it.
pub proof fn law_the_port_is_handed_over_and_back(v: DaemonView, bootloader: bool)
    ensures
        ({
            let released = command_step(v, DaemonCommand::ReleasePort { bootloader });
            let acquired = command_step(released.daemon, DaemonCommand::AcquirePort);
            &&& released.daemon.paused
            &&& released.outputs.last() == OutputView::Publish(
                EventView::PortReleased { bootloader },
            )
            &&& bootloader ==> released.outputs[0] == OutputView::Reset { bootloader: true }
            &&& bootloader ==> released.daemon.state.restart_requested
            &&& !acquired.daemon.paused
            &&& acquired.outputs == seq![OutputView::Publish(EventView::PortResumed)]
        }),
{
}

/// A start without a profile is refused: nothing is written, and the event
/// asks for a profile.
pub proof fn law_start_needs_a_profile(v: DaemonView)
    ensures
        !v.state.profile_ready ==> command_step(
            v,
            DaemonCommand::Action(EspAction::Start),
        ).outputs == seq![OutputView::Publish(EventView::ProfileRequired)] && command_step(
            v,
            DaemonCommand::Action(EspAction::Start),
        ).daemon == v,
        v.state.profile_ready && !v.paused ==> command_step(
            v,
            DaemonCommand::Action(EspAction::Start),
        ).outputs == seq![OutputView::Write(action_frame("start"@))],
{
}

/// A profile that was written, homing and purging each let the next start
/// through.
pub proof fn law_profiles_let_start_through(v: DaemonView, hash: Seq<char>)
    ensures
        profile_step(v, hash).daemon.state.profile_ready,
        command_step(v, DaemonCommand::Action(EspAction::Home)).daemon.state.profile_ready,
        command_step(v, DaemonCommand::Action(EspAction::Purge)).daemon.state.profile_ready,
        profile_step(v, hash).outputs.last() == OutputView::Publish(
            EventView::ProfileSent { hash },
        ),
{
}

/// A reset forgets the profile, so that the next start is refused.
pub proof fn law_reset_forgets_the_profile(v: DaemonView, bootloader: bool)
    ensures
        ({
            let reset = command_step(v, DaemonCommand::Reset { bootloader });
            &&& !reset.daemon.state.profile_ready
            &&& reset.outputs == seq![OutputView::Reset { bootloader }]
            &&& command_step(
                reset.daemon,
                DaemonCommand::Action(EspAction::Start),
            ).outputs == seq![OutputView::Publish(EventView::ProfileRequired)]
        }),
{
}

/// A line that is no text changes nothing and causes nothing.
pub proof fn law_undecodable_lines_are_dropped(v: DaemonView, bytes: Seq<u8>, now: int)
    requires
        !valid_utf8(bytes),
    ensures
        read_step(v, OutcomeView::Line(bytes), now).daemon == v,
        read_step(v, OutcomeView::Line(bytes), now).outputs == Seq::<OutputView>::empty(),
{
}

/// A read that times out and one that fails do the same: the healthcheck runs.
pub proof fn law_timeouts_and_errors_tick(v: DaemonView, error: Seq<char>, now: int)
    ensures
        read_step(v, OutcomeView::Timeout, now) == read_step(v, OutcomeView::Error(error), now),
        read_step(v, OutcomeView::Timeout, now).daemon == (DaemonView {
            state: tick_step(v.state, now).state,
            ..v
        }),
        read_step(v, OutcomeView::Timeout, now).outputs == effect_outputs(
            tick_step(v.state, now).effects,
            v.paused,
        ),
{
}

/// The first things the daemon does, before anything happens, are the three
/// writes that wake the line and ask for machine information.
pub proof fn law_the_loop_starts_by_asking(events: Seq<LoopEvent>)
    ensures
        outputs_after(events).len() >= 3,
        outputs_after(events)[0] == OutputView::Write(seq![0x33u8, 0x32u8, 0x0au8]),
        outputs_after(events)[1] == OutputView::Write(seq![0x03u8]),
        outputs_after(events)[2] == OutputView::Write(action_frame("info"@)),
    decreases events.len(),
{
    if events.len() > 0 {
        law_the_loop_starts_by_asking(events.drop_last());
    }
}

/// A finished daemon does nothing, whatever happens.
proof fn lemma_finished_daemons_rest(v: DaemonView, event: LoopEvent)
    requires
        v.finished,
    ensures
        loop_step(v, event).daemon == v,
        loop_step(v, event).outputs == Seq::<OutputView>::empty(),
{
}

/// Once no command will come any more, nothing more is done.
#[verifier::spinoff_prover]
pub proof fn law_the_loop_ends_with_the_commands(before: Seq<LoopEvent>, later: Seq<LoopEvent>)
    requires
        before.len() > 0,
        before.last() is CommandsClosed,
    ensures
        daemon_after(before + later) == daemon_after(before),
        outputs_after(before + later) == outputs_after(before),
        daemon_after(before).finished,
    decreases later.len(),
{
    if later.len() == 0 {
        assert(before + later =~= before);
    } else {
        law_the_loop_ends_with_the_commands(before, later.drop_last());
        assert((before + later).drop_last() =~= before + later.drop_last());
        lemma_finished_daemons_rest(daemon_after(before), later.last());
        assert(outputs_after(before) + Seq::<OutputView>::empty() =~= outputs_after(before));
    }
}

/// The output that tells of a silent machine.
pub open spec fn tells_silence(output: OutputView) -> bool {
    output == OutputView::Publish(EventView::EspSilentAfterBoot)
}

/// No output tells of a silent machine.
pub open spec fn no_silence(outputs: Seq<OutputView>) -> bool {
    forall|i: int| 0 <= i < outputs.len() ==> !tells_silence(#[trigger] outputs[i])
}

/// Effects that do not tell of a silent machine have no such output.
proof fn lemma_effects_no_silence(effects: Seq<EffectView>, paused: bool)
    requires
        !publishes(effects, EventView::EspSilentAfterBoot),
    ensures
        no_silence(effect_outputs(effects, paused)),
    decreases effects.len(),
{
    if effects.len() > 0 {
        let before = effects.drop_last();
        if publishes(before, EventView::EspSilentAfterBoot) {
            let i = choose|i: int|
                0 <= i < before.len() && before[i] == EffectView::Event(
                    EventView::EspSilentAfterBoot,
                );
            assert(effects[i] == before[i]);
        }
        assert(effects.contains(effects.last()));
        lemma_effects_no_silence(before, paused);
    }
}

/// A read does not tell of a silent machine.
proof fn lemma_reads_tell_no_silence(v: DaemonView, outcome: OutcomeView, now: int)
    requires
        v.state.wf(),
    ensures
        no_silence(read_step(v, outcome, now).outputs),
        read_step(v, outcome, now).daemon.alive_checked == v.alive_checked,
        read_step(v, outcome, now).daemon.state.wf(),
{
    let raw = match outcome {
        OutcomeView::Line(bytes) => decode_utf8(bytes),
        _ => Seq::<char>::empty(),
    };
    law_lines_tell_no_boot_silence(v.state, raw, now);
    law_lines_keep_the_invariant(v.state, raw, now);
    lemma_effects_no_silence(tick_step(v.state, now).effects, v.paused);
    lemma_effects_no_silence(line_step(v.state, raw, now).effects, v.paused);
}

/// A command, and the write of a profile, do not tell of a silent machine.
proof fn lemma_commands_tell_no_silence(v: DaemonView, command: DaemonCommand, hash: Seq<char>)
    requires
        v.state.wf(),
    ensures
        no_silence(command_step(v, command).outputs),
        command_step(v, command).daemon.alive_checked == v.alive_checked,
        command_step(v, command).daemon.state.wf(),
        no_silence(profile_step(v, hash).outputs),
        profile_step(v, hash).daemon.alive_checked == v.alive_checked,
        profile_step(v, hash).daemon.state.wf(),
{
    lemma_just(EventView::ProfileReadyChanged { ready: true });
    lemma_effects_no_silence(ready_step(v.state, true).effects, v.paused);
}

/// Only the alive check tells of a silent machine.
proof fn lemma_only_the_check_tells(v: DaemonView, event: LoopEvent)
    requires
        v.state.wf(),
        !(event is AliveCheck),
    ensures
        no_silence(loop_step(v, event).outputs),
        loop_step(v, event).daemon.alive_checked == v.alive_checked,
        loop_step(v, event).daemon.state.wf(),
{
    match event {
        LoopEvent::Command(command) => {
            lemma_commands_tell_no_silence(v, command, Seq::<char>::empty());
        },
        LoopEvent::ProfileWritten { hash } => {
            lemma_commands_tell_no_silence(v, DaemonCommand::Pause, hash@);
        },
        LoopEvent::Read { outcome, now_ms } => {
            lemma_reads_tell_no_silence(v, outcome@, now_ms as int);
        },
        _ => {},
    }
}

/// Over the whole run it is told at most once that the machine is silent, and
/// only by an alive check at which the machine has not talked.
pub proof fn law_silence_is_told_at_most_once(events: Seq<LoopEvent>)
    ensures
        forall|i: int, j: int|
            0 <= i < j < outputs_after(events).len() ==> !tells_silence(
                #[trigger] outputs_after(events)[i],
            ) || !tells_silence(#[trigger] outputs_after(events)[j]),
        !daemon_after(events).alive_checked ==> no_silence(outputs_after(events)),
        daemon_after(events).state.wf(),
        events.len() > 0 && !no_silence(
            loop_step(daemon_after(events.drop_last()), events.last()).outputs,
        ) ==> events.last() is AliveCheck && !daemon_after(events.drop_last()).state.info_ready,
    decreases events.len(),
{
    if events.len() > 0 {
        let before = events.drop_last();
        let v = daemon_after(before);
        let told = outputs_after(before);
        let s = loop_step(v, events.last());
        let all = outputs_after(events);
        law_silence_is_told_at_most_once(before);
        if !(events.last() is AliveCheck) {
            lemma_only_the_check_tells(v, events.last());
        }
        assert(no_silence(told) || no_silence(s.outputs));
        assert forall|i: int, j: int| 0 <= i < j < all.len() implies !tells_silence(
            #[trigger] all[i],
        ) || !tells_silence(#[trigger] all[j]) by {
            let n = told.len();
            if j < n {
                assert(all[i] == told[i] && all[j] == told[j]);
            } else if i < n {
                assert(all[i] == told[i] && all[j] == s.outputs[j - n]);
            } else {
                assert(all[i] == s.outputs[i - n] && all[j] == s.outputs[j - n]);
                assert(s.outputs.len() > 1 ==> no_silence(s.outputs));
            }
        }
        if !daemon_after(events).alive_checked {
            assert forall|i: int| 0 <= i < all.len() implies !tells_silence(
                #[trigger] all[i],
            ) by {
                if i < told.len() {
                    assert(all[i] == told[i]);
                } else {
                    assert(all[i] == s.outputs[i - told.len()]);
                }
            }
        }
    }
}

/// Events are published in the order in which the read loop emits them,
/// whether the port is used or not.
pub proof fn law_all_events_are_published(effects: Seq<EffectView>, paused: bool)
    ensures
        published(effect_outputs(effects, paused)) == events_in(effects),
    decreases effects.len(),
{
    if effects.len() > 0 {
        let before = effects.drop_last();
        law_all_events_are_published(before, paused);
        let last = effect_output(effects.last(), paused);
        let all = effect_outputs(before, paused);
        if last.len() == 0 {
            assert(all + last =~= all);
        } else {
            assert((all + last).drop_last() =~= all);
            assert((all + last).last() == last[0]);
        }
    }
}

/// The events among the outputs.
pub open spec fn published(outputs: Seq<OutputView>) -> Seq<EventView>
    decreases outputs.len(),
{
    if outputs.len() == 0 {
        Seq::<EventView>::empty()
    } else {
        match outputs.last() {
            OutputView::Publish(event) => published(outputs.drop_last()).push(event),
            _ => published(outputs.drop_last()),
        }
    }
}

/// The events among the effects.
pub open spec fn events_in(effects: Seq<EffectView>) -> Seq<EventView>
    decreases effects.len(),
{
    if effects.len() == 0 {
        Seq::<EventView>::empty()
    } else {
        match effects.last() {
            EffectView::Event(event) => events_in(effects.drop_last()).push(event),
            _ => events_in(effects.drop_last()),
        }
    }
}

}
