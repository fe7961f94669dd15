//! What the server makes of each client line, and how frames go out.

use crate::command::{named_action, EspAction};
use crate::events::{EventView, MachineEvent};
use crate::protocol::{
    hex_bytes, hex_decode, ClientCommand, FrameView, ServerFrame, PROTOCOL_VERSION,
};
use crate::reader::{MachineSnapshot, SnapshotView};
use crate::runtime::{CommandView, DaemonCommand};
use crate::text::{owned, trim_text, trimmed, CharSet};
use vstd::prelude::*;
use vstd::utf8::encode_utf8;

verus! {

/// Where the server listens unless it is told otherwise.
pub const DEFAULT_SOCKET: &'static str = "/run/met-daemon/ipc.sock";

/// The path that the server listens at.
pub fn socket_path(configured: Option<String>) -> (r: String)
    ensures
        r@ == match configured {
            Some(path) => path@,
            None => DEFAULT_SOCKET@,
        },
{
    match configured {
        Some(path) => path,
        None => owned(DEFAULT_SOCKET),
    }
}

/// The daemon command that a client command maps to: the same command with its
/// payload read. Unknown actions and payloads that are no hexadecimal digits
/// map to none, and a snapshot is not the daemon's business.
pub open spec fn translated(command: ClientCommand) -> Option<CommandView> {
    match command {
        ClientCommand::Action { name } => match named_action(name@) {
            Some(action) => Some(CommandView::Action(action)),
            None => None,
        },
        ClientCommand::SendProfile { profile } => Some(CommandView::SendProfile(profile)),
        ClientCommand::WriteRaw { hex } => match hex_bytes(encode_utf8(hex@)) {
            Some(bytes) => Some(CommandView::WriteRaw(bytes)),
            None => None,
        },
        ClientCommand::Reset { bootloader } => Some(CommandView::Reset { bootloader }),
        ClientCommand::ReleasePort { bootloader } => Some(CommandView::ReleasePort { bootloader }),
        ClientCommand::AcquirePort => Some(CommandView::AcquirePort),
        ClientCommand::GetSnapshot => None,
    }
}

/// The view of an optional command.
pub open spec fn opt_command(v: Option<DaemonCommand>) -> Option<CommandView> {
    match v {
        Some(command) => Some(command@),
        None => None,
    }
}

/// Maps client commands to daemon commands; nothing for malformed payloads.
pub fn translate(command: ClientCommand) -> (r: Option<DaemonCommand>)
    ensures
        opt_command(r) == translated(command),
{
    match command {
        ClientCommand::Action { name } => match EspAction::from_wire(name.as_str()) {
            Some(action) => Some(DaemonCommand::Action(action)),
            None => None,
        },
        ClientCommand::SendProfile { profile } => Some(DaemonCommand::SendProfile(profile)),
        ClientCommand::WriteRaw { hex } => match hex_decode(hex.as_str()) {
            Some(bytes) => Some(DaemonCommand::WriteRaw(bytes)),
            None => None,
        },
        ClientCommand::Reset { bootloader } => Some(DaemonCommand::Reset { bootloader }),
        ClientCommand::ReleasePort { bootloader } => Some(
            DaemonCommand::ReleasePort { bootloader },
        ),
        ClientCommand::AcquirePort => Some(DaemonCommand::AcquirePort),
        ClientCommand::GetSnapshot => None,
    }
}

/// What a client line asks for.
#[derive(Debug)]
pub enum ClientStep {
    /// Nothing; the connection stays up.
    Ignore,
    /// Send this frame back.
    Reply(ServerFrame),
    /// Hand this command to the daemon.
    Forward(DaemonCommand),
    /// End the connection.
    Close,
}

/// A line that holds white space alone.
pub open spec fn blank(line: Seq<char>) -> bool {
    trimmed(line, CharSet::WhiteSpace).len() == 0
}

/// Whether a line holds white space alone; such lines are skipped.
pub fn is_blank(line: &str) -> (r: bool)
    ensures
        r == blank(line@),
{
    trim_text(line, CharSet::WhiteSpace).unicode_len() == 0
}

/// The frames that a step sends.
pub open spec fn step_frames(step: ClientStep) -> Seq<FrameView> {
    match step {
        ClientStep::Reply(frame) => seq![frame@],
        _ => Seq::<FrameView>::empty(),
    }
}

/// The commands that a step hands to the daemon.
pub open spec fn step_commands(step: ClientStep) -> Seq<CommandView> {
    match step {
        ClientStep::Forward(command) => seq![command@],
        _ => Seq::<CommandView>::empty(),
    }
}

/// The frames that the command of a client line leads to: a snapshot where one
/// is asked for.
pub open spec fn command_frames(command: Option<ClientCommand>, snapshot: SnapshotView) -> Seq<
    FrameView,
> {
    match command {
        Some(ClientCommand::GetSnapshot) => seq![FrameView::Snapshot { snapshot }],
        _ => Seq::<FrameView>::empty(),
    }
}

/// The commands that the command of a client line leads to.
pub open spec fn forwarded(command: Option<ClientCommand>) -> Seq<CommandView> {
    match command {
        Some(c) => match translated(c) {
            Some(d) => seq![d],
            None => Seq::<CommandView>::empty(),
        },
        None => Seq::<CommandView>::empty(),
    }
}

/// What the command of a client line leads to; a line that is no command has
/// none.
pub fn on_client_command(command: Option<ClientCommand>, snapshot: &MachineSnapshot) -> (r:
    ClientStep)
    ensures
        step_frames(r) == command_frames(command, snapshot@),
        step_commands(r) == forwarded(command),
        !(r is Close),
{
    match command {
        None => ClientStep::Ignore,
        Some(ClientCommand::GetSnapshot) => ClientStep::Reply(
            ServerFrame::Snapshot { snapshot: snapshot.clone() },
        ),
        Some(c) => match translate(c) {
            Some(command) => ClientStep::Forward(command),
            None => ClientStep::Ignore,
        },
    }
}

/// The first frame on every connection.
pub fn hello(snapshot: MachineSnapshot) -> (r: ServerFrame)
    ensures
        r@ == (FrameView::Hello { v: PROTOCOL_VERSION as int, snapshot: snapshot@ }),
{
    ServerFrame::Hello { v: PROTOCOL_VERSION, snapshot }
}

/// The frame of an event.
pub fn event_frame(event: MachineEvent) -> (r: ServerFrame)
    ensures
        r@ == (FrameView::Event { event: event@ }),
{
    ServerFrame::Event { event }
}

/// The bytes of a frame on the wire: one line.
pub fn frame_line(payload: Vec<u8>) -> (r: Vec<u8>)
    ensures
        r@ == payload@.push(0x0a),
{
    let mut line = payload;
    line.push(0x0a);
    line
}

/// What happens on a connection.
#[derive(Debug)]
pub enum SessionInput {
    /// The client connected.
    Connected {
        /// The state of the machine.
        snapshot: MachineSnapshot,
    },
    /// The daemon published an event.
    Event(MachineEvent),
    /// Events were lost, because the client did not keep up.
    EventsLost,
    /// The client sent a line.
    Line {
        /// The line.
        text: String,
        /// The command that it holds, if it holds one.
        command: Option<ClientCommand>,
        /// The state of the machine.
        snapshot: MachineSnapshot,
    },
    /// The client, the events or the daemon are gone.
    Closed,
}

/// The command of a line; a blank line has none.
pub open spec fn line_command(text: Seq<char>, command: Option<ClientCommand>) -> Option<
    ClientCommand,
> {
    if blank(text) {
        None
    } else {
        command
    }
}

/// The frames that go out for an input.
pub open spec fn input_frames(input: SessionInput) -> Seq<FrameView> {
    match input {
        SessionInput::Connected { snapshot } => seq![
            FrameView::Hello { v: PROTOCOL_VERSION as int, snapshot: snapshot@ },
        ],
        SessionInput::Event(event) => seq![FrameView::Event { event: event@ }],
        SessionInput::Line { text, command, snapshot } => command_frames(
            line_command(text@, command),
            snapshot@,
        ),
        _ => Seq::<FrameView>::empty(),
    }
}

/// The commands that an input hands to the daemon.
pub open spec fn input_commands(input: SessionInput) -> Seq<CommandView> {
    match input {
        SessionInput::Line { text, command, snapshot } => forwarded(line_command(text@, command)),
        _ => Seq::<CommandView>::empty(),
    }
}

/// What is done for an input. Only the end of the client, the events or the
/// daemon ends the connection.
pub fn on_session_input(input: SessionInput) -> (r: ClientStep)
    ensures
        step_frames(r) == input_frames(input),
        step_commands(r) == input_commands(input),
        r is Close <==> input is Closed,
{
    match input {
        SessionInput::Connected { snapshot } => ClientStep::Reply(hello(snapshot)),
        SessionInput::Event(event) => ClientStep::Reply(event_frame(event)),
        SessionInput::EventsLost => ClientStep::Ignore,
        SessionInput::Line { text, command, snapshot } => {
            if is_blank(text.as_str()) {
                ClientStep::Ignore
            } else {
                on_client_command(command, &snapshot)
            }
        },
        SessionInput::Closed => ClientStep::Close,
    }
}

// ---------------------------------------------------------------------------
// Laws
// ---------------------------------------------------------------------------

/// Every command but the request for a snapshot, with a payload that can be
/// read, reaches the daemon.
pub proof fn law_readable_commands_are_forwarded(command: ClientCommand)
    ensures
        translated(command) is None <==> {
            ||| command is GetSnapshot
            ||| command matches ClientCommand::Action { name } && named_action(name@) is None
            ||| command matches ClientCommand::WriteRaw { hex } && hex_bytes(encode_utf8(hex@))
                is None
        },
{
}

/// The frames of a session, in order.
pub open spec fn session_frames(inputs: Seq<SessionInput>) -> Seq<FrameView>
    decreases inputs.len(),
{
    if inputs.len() == 0 {
        Seq::<FrameView>::empty()
    } else {
        session_frames(inputs.drop_last()) + input_frames(inputs.last())
    }
}

/// The commands of a session that reach the daemon, in order.
pub open spec fn session_commands(inputs: Seq<SessionInput>) -> Seq<CommandView>
    decreases inputs.len(),
{
    if inputs.len() == 0 {
        Seq::<CommandView>::empty()
    } else {
        session_commands(inputs.drop_last()) + input_commands(inputs.last())
    }
}

/// The events that came, in order.
pub open spec fn received_events(inputs: Seq<SessionInput>) -> Seq<EventView>
    decreases inputs.len(),
{
    if inputs.len() == 0 {
        Seq::<EventView>::empty()
    } else {
        match inputs.last() {
            SessionInput::Event(event) => received_events(inputs.drop_last()).push(event@),
            _ => received_events(inputs.drop_last()),
        }
    }
}

/// The events in the frames, in order.
pub open spec fn told_events(frames: Seq<FrameView>) -> Seq<EventView>
    decreases frames.len(),
{
    if frames.len() == 0 {
        Seq::<EventView>::empty()
    } else {
        match frames.last() {
            FrameView::Event { event } => told_events(frames.drop_last()).push(event),
            _ => told_events(frames.drop_last()),
        }
    }
}

/// The snapshots that were asked for, in order.
pub open spec fn requested_snapshots(inputs: Seq<SessionInput>) -> Seq<SnapshotView>
    decreases inputs.len(),
{
    if inputs.len() == 0 {
        Seq::<SnapshotView>::empty()
    } else {
        match inputs.last() {
            SessionInput::Line { text, command, snapshot } => if line_command(text@, command)
                == Some(ClientCommand::GetSnapshot) {
                requested_snapshots(inputs.drop_last()).push(snapshot@)
            } else {
                requested_snapshots(inputs.drop_last())
            },
            _ => requested_snapshots(inputs.drop_last()),
        }
    }
}

/// The snapshots in the frames, in order; those of the greeting do not count.
pub open spec fn told_snapshots(frames: Seq<FrameView>) -> Seq<SnapshotView>
    decreases frames.len(),
{
    if frames.len() == 0 {
        Seq::<SnapshotView>::empty()
    } else {
        match frames.last() {
            FrameView::Snapshot { snapshot } => told_snapshots(frames.drop_last()).push(snapshot),
            _ => told_snapshots(frames.drop_last()),
        }
    }
}

/// The commands that the lines hold, in order.
pub open spec fn held_commands(inputs: Seq<SessionInput>) -> Seq<ClientCommand>
    decreases inputs.len(),
{
    if inputs.len() == 0 {
        Seq::<ClientCommand>::empty()
    } else {
        match inputs.last() {
            SessionInput::Line { text, command, snapshot } => match line_command(text@, command) {
                Some(c) => held_commands(inputs.drop_last()).push(c),
                None => held_commands(inputs.drop_last()),
            },
            _ => held_commands(inputs.drop_last()),
        }
    }
}

/// The daemon commands that client commands map to, in order; those that map
/// to none are left out.
pub open spec fn all_translated(commands: Seq<ClientCommand>) -> Seq<CommandView>
    decreases commands.len(),
{
    if commands.len() == 0 {
        Seq::<CommandView>::empty()
    } else {
        match translated(commands.last()) {
            Some(d) => all_translated(commands.drop_last()).push(d),
            None => all_translated(commands.drop_last()),
        }
    }
}

/// At most one frame more.
proof fn lemma_one_more_frame(frames: Seq<FrameView>, frame: FrameView)
    ensures
        told_events(frames + seq![frame]) == (match frame {
            FrameView::Event { event } => told_events(frames).push(event),
            _ => told_events(frames),
        }),
        told_snapshots(frames + seq![frame]) == (match frame {
            FrameView::Snapshot { snapshot } => told_snapshots(frames).push(snapshot),
            _ => told_snapshots(frames),
        }),
{
    assert((frames + seq![frame]).drop_last() =~= frames);
    assert((frames + seq![frame]).last() == frame);
}

/// A session, once the client connected: it is greeted first, with the
/// protocol version and the state of the machine. Every event goes out as one
/// frame, every request for a snapshot is answered with one, and nothing else
/// goes out; each in order. Every command that maps to one of the daemon
/// reaches it once, in order. Lines that are blank, hold no command, or hold
/// one that maps to none reach nobody, and the session goes on.
pub proof fn law_sessions(snapshot: MachineSnapshot, inputs: Seq<SessionInput>)
    requires
        inputs.len() > 0,
        inputs[0] == (SessionInput::Connected { snapshot }),
        forall|i: int| 0 < i < inputs.len() ==> !(#[trigger] inputs[i] is Connected),
    ensures
        session_frames(inputs).len() > 0,
        session_frames(inputs)[0] == (FrameView::Hello { v: 1, snapshot: snapshot@ }),
        told_events(session_frames(inputs)) == received_events(inputs),
        told_snapshots(session_frames(inputs)) == requested_snapshots(inputs),
        session_frames(inputs).len() == 1 + received_events(inputs).len() + requested_snapshots(
            inputs,
        ).len(),
        session_commands(inputs) == all_translated(held_commands(inputs)),
    decreases inputs.len(),
{
    let before = inputs.drop_last();
    let last = inputs.last();
    let frames = session_frames(before);
    if inputs.len() == 1 {
        assert(frames =~= Seq::<FrameView>::empty());
        lemma_one_more_frame(
            frames,
            FrameView::Hello { v: PROTOCOL_VERSION as int, snapshot: snapshot@ },
        );
        assert(received_events(before) =~= Seq::<EventView>::empty());
        assert(requested_snapshots(before) =~= Seq::<SnapshotView>::empty());
        assert(held_commands(before) =~= Seq::<ClientCommand>::empty());
        assert(session_commands(before) =~= Seq::<CommandView>::empty());
        assert(session_commands(inputs) =~= Seq::<CommandView>::empty());
    } else {
        assert(before[0] == inputs[0]);
        assert forall|i: int| 0 < i < before.len() implies !(#[trigger] before[i]
            is Connected) by {
            assert(before[i] == inputs[i]);
        }
        assert(!(inputs[inputs.len() - 1] is Connected));
        law_sessions(snapshot, before);
        let commands = session_commands(before);
        let none = Seq::<CommandView>::empty();
        assert(commands + none =~= commands);
        assert(frames + Seq::<FrameView>::empty() =~= frames);
        match last {
            SessionInput::Event(event) => {
                lemma_one_more_frame(frames, FrameView::Event { event: event@ });
            },
            SessionInput::Line { text, command, snapshot: now } => {
                lemma_one_more_frame(frames, FrameView::Snapshot { snapshot: now@ });
                if let Some(c) = line_command(text@, command) {
                    let held = held_commands(before).push(c);
                    assert(held.drop_last() =~= held_commands(before));
                    if let Some(d) = translated(c) {
                        assert(commands + seq![d] =~= commands.push(d));
                    }
                }
            },
            _ => {},
        }
    }
}

}
