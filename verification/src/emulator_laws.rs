//! Which lines the emulator plays, and in what order.

use crate::command::EspAction;
use crate::command_laws::action_word;
use crate::emulator::{
    commanded_source, fixture_lines, idle_lines, law_action_starts_its_source, loaded, started,
    DataView, EmulatorView, Source,
};
use crate::encoding::lossy_text;
use crate::json::JsonView;
use crate::search::occurs;
use crate::text::{trimmed, CharSet};
use vstd::prelude::*;
use vstd::utf8::encode_utf8;

verus! {

/// Which run the text of the host asks for: a start counts before a stop, a
/// stop before a purge, and a purge before homing.
pub proof fn law_commands_are_ranked(text: Seq<char>)
    ensures
        commanded_source(text) == Some(Source::Espresso) <==> occurs(text, "action,start"@),
        commanded_source(text) == Some(Source::Idle) <==> occurs(text, "action,stop"@) && !occurs(
            text,
            "action,start"@,
        ),
        commanded_source(text) == Some(Source::Purge) <==> occurs(text, "action,purge"@) && !occurs(
            text,
            "action,start"@,
        ) && !occurs(text, "action,stop"@),
        commanded_source(text) == Some(Source::Home) <==> occurs(text, "action,home"@) && !occurs(
            text,
            "action,start"@,
        ) && !occurs(text, "action,stop"@) && !occurs(text, "action,purge"@),
        commanded_source(text) is None <==> !occurs(text, "action,start"@) && !occurs(
            text,
            "action,stop"@,
        ) && !occurs(text, "action,purge"@) && !occurs(text, "action,home"@),
{
}

/// Once the host wrote an action, the run that belongs to it plays from its
/// first line: a start plays the shot, homing the homing run, and a purge the
/// purge.
pub proof fn law_actions_play_their_run(
    v: EmulatorView,
    shot: JsonView,
    home: JsonView,
    purge: JsonView,
    action: EspAction,
    run: JsonView,
    after: EmulatorView,
)
    requires
        v.wf(),
        v.data == loaded(shot, home, purge),
        v.host_bytes.len() == 0,
        (action == EspAction::Start && run == shot) || (action == EspAction::Home && run == home)
            || (action == EspAction::Purge && run == purge),
        fixture_lines(run).len() >= 2,
        after == (EmulatorView {
            host_bytes: encode_utf8("action,"@ + action_word(action)).push(0x03),
            ..v
        }),
    ensures
        after.next_line() == trimmed(fixture_lines(run)[0], CharSet::Blanks) + seq!['\r', '\n'],
        after.advanced().host_bytes.len() == 0,
        after.advanced().lines() == fixture_lines(run),
        after.advanced().line_counter == 1,
{
    assert(v.host_bytes =~= Seq::<u8>::empty());
    assert(v.host_bytes + after.host_bytes =~= after.host_bytes);
    law_action_starts_its_source(v, action, after);
    crate::emulator::law_host_bytes_are_read_once(after);
}


/// The emulator after it has played `n` lines, while the host writes nothing.
pub open spec fn after_lines(v: EmulatorView, n: nat) -> EmulatorView
    decreases n,
{
    if n == 0 {
        v
    } else {
        after_lines(v, (n - 1) as nat).advanced()
    }
}

/// A line as it plays.
pub open spec fn shown_line(line: Seq<char>) -> Seq<char> {
    trimmed(line, CharSet::Blanks) + "\r\n"@
}

/// The end of a line.
proof fn lemma_line_end()
    ensures
        "\r\n"@ == seq!['\r', '\n'],
{
    reveal_strlit("\r\n");
    assert("\r\n"@ =~= seq!['\r', '\n']);
}

/// No bytes ask for nothing.
proof fn lemma_silent_host(v: EmulatorView)
    requires
        v.wf(),
        v.host_bytes.len() == 0,
    ensures
        commanded_source(lossy_text(v.host_bytes)) is None,
{
    assert(v.host_bytes =~= Seq::<u8>::empty());
    crate::emulator::law_host_bytes_are_read_once(v);
}

/// As long as the host writes nothing, an emulator at the start of the idle
/// loop plays its datapoint and its sensors in turn, for ever, and nothing
/// else.
pub proof fn law_the_idle_loop_goes_on(v: EmulatorView, n: nat)
    requires
        v.wf(),
        v.host_bytes.len() == 0,
        v.source == Source::Idle,
        v.line_counter == 0,
    ensures
        after_lines(v, n).next_line() == shown_line(idle_lines()[n as int % 2]),
        after_lines(v, n).wf(),
        after_lines(v, n).host_bytes.len() == 0,
        after_lines(v, n).data == v.data,
        after_lines(v, n).source == Source::Idle,
        n as int % 2 == 1 ==> after_lines(v, n).line_counter == 1,
        n as int % 2 == 0 ==> after_lines(v, n).line_counter == 0 || after_lines(v, n).line_counter
            == 2,
    decreases n,
{
    lemma_line_end();
    assert(v.data.idle == idle_lines() && idle_lines().len() == 3);
    if n > 0 {
        let before = after_lines(v, (n - 1) as nat);
        law_the_idle_loop_goes_on(v, (n - 1) as nat);
        lemma_silent_host(before);
        crate::emulator::law_sources_play_in_order(before);
        crate::emulator::law_last_line_never_plays(before);
        crate::emulator::law_host_bytes_are_read_once(before);
    }
    let now = after_lines(v, n);
    lemma_silent_host(now);
    crate::emulator::law_sources_play_in_order(now);
}

/// A new emulator plays the idle loop, and so does one that was reset.
pub proof fn law_playback_starts_idle(data: DataView, speed_percent: int, v: EmulatorView)
    requires
        data.wf(),
        v.wf(),
        v.host_bytes.len() == 0,
    ensures
        ({
            let fresh = started(data, speed_percent);
            &&& fresh.data == data
            &&& fresh.source == Source::Idle
            &&& fresh.line_counter == 0
            &&& fresh.host_bytes.len() == 0
            &&& fresh.next_line() == shown_line(idle_lines()[0])
            &&& v.stopped().next_line() == shown_line(idle_lines()[0])
            &&& v.stopped().advanced().next_line() == shown_line(idle_lines()[1])
            &&& v.stopped().data == v.data
            &&& v.stopped().sleep_ns == v.sleep_ns
            &&& v.stopped().host_bytes == v.host_bytes
        }),
{
    lemma_line_end();
    let fresh = started(data, speed_percent);
    assert(data.idle.len() == 3 && v.data.idle.len() == 3);
    assert(fresh.wf());
    lemma_silent_host(fresh);
    crate::emulator::law_sources_play_in_order(fresh);
    let after = v.stopped();
    assert(after.wf());
    lemma_silent_host(after);
    crate::emulator::law_sources_play_in_order(after);
    crate::emulator::law_last_line_never_plays(after);
    crate::emulator::law_host_bytes_are_read_once(after);
    lemma_silent_host(after.advanced());
    crate::emulator::law_sources_play_in_order(after.advanced());
}

/// Once the host wrote an action, the whole run that belongs to it plays, from
/// its first line to the last but one, and then the idle loop goes on.
pub proof fn law_actions_play_the_whole_run(
    v: EmulatorView,
    shot: JsonView,
    home: JsonView,
    purge: JsonView,
    action: EspAction,
    run: JsonView,
    n: nat,
)
    requires
        v.wf(),
        v.data == loaded(shot, home, purge),
        v.host_bytes.len() == 0,
        (action == EspAction::Start && run == shot) || (action == EspAction::Home && run == home)
            || (action == EspAction::Purge && run == purge),
        fixture_lines(run).len() >= 2,
        n < fixture_lines(run).len(),
    ensures
        ({
            let after = v.written(encode_utf8("action,"@ + action_word(action)).push(0x03));
            after_lines(after, n).next_line() == shown_line(
                if n < fixture_lines(run).len() - 1 {
                    fixture_lines(run)[n as int]
                } else {
                    idle_lines()[0]
                },
            )
        }),
{
    let after = v.written(encode_utf8("action,"@ + action_word(action)).push(0x03));
    assert(v.host_bytes + encode_utf8("action,"@ + action_word(action)).push(0x03) =~= encode_utf8(
        "action,"@ + action_word(action),
    ).push(0x03));
    lemma_line_end();
    law_actions_play_their_run(v, shot, home, purge, action, run, after);
    if n > 0 {
        lemma_run_goes_on(after, run, n);
        let now = after_lines(after, n);
        lemma_silent_host(now);
        crate::emulator::law_sources_play_in_order(now);
        assert(now.data.idle == idle_lines());
    }
}

/// A run that has started plays on.
proof fn lemma_run_goes_on(after: EmulatorView, run: JsonView, n: nat)
    requires
        after.wf(),
        after.advanced().host_bytes.len() == 0,
        after.advanced().lines() == fixture_lines(run),
        after.advanced().line_counter == 1,
        0 < n < fixture_lines(run).len(),
    ensures
        ({
            let now = after_lines(after, n);
            &&& now.wf()
            &&& now.host_bytes.len() == 0
            &&& now.lines() == fixture_lines(run)
            &&& now.line_counter == n
        }),
    decreases n,
{
    if n == 1 {
        reveal_with_fuel(after_lines, 2);
        crate::emulator::law_last_line_never_plays(after);
    } else {
        let before = after_lines(after, (n - 1) as nat);
        lemma_run_goes_on(after, run, (n - 1) as nat);
        lemma_silent_host(before);
        crate::emulator::law_sources_play_in_order(before);
        crate::emulator::law_last_line_never_plays(before);
        crate::emulator::law_host_bytes_are_read_once(before);
    }
}

/// What the host writes in pieces counts as if it came at once, and changes
/// nothing but what is to be read.
pub proof fn law_pieces_are_put_together(v: EmulatorView, a: Seq<u8>, b: Seq<u8>)
    ensures
        v.written(a).written(b) == v.written(a + b),
        v.written(a).host_bytes == v.host_bytes + a,
        v.written(a).lines() == v.lines(),
        v.written(a).line_counter == v.line_counter,
        v.written(a).sleep_ns == v.sleep_ns,
        v.written(a).startup_delay_ns == v.startup_delay_ns,
{
    assert(v.host_bytes + a + b =~= v.host_bytes + (a + b));
}

}
