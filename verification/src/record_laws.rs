//! What the snapshot keeps, and what is published, of everything that the read
//! loop was fed.

use crate::effect_laws::{
    law_effects_of_a_line, lemma_alarms_no_status, lemma_before_no_status, lemma_course_no_status,
    lemma_line_frame, told_alarms, told_before, told_course, told_message,
};
use crate::esp_info::InfoView;
use crate::events::EventView;
use crate::history::{
    first_stable, is_start, last_status, law_state_follows_history, sightings, state_after, Input,
    Sighting,
};
use crate::message::{
    boot_banner, law_boot_banner_is_unrecognized, line_kind, line_message, LineKind, MessageView,
};
use crate::reader::{
    extraction_step, heating_step, idle_step, just, lemma_statuses_differ, line_step, message_step,
    prepare_step, shot_step, ReaderView,
};
use crate::reader_laws::{lemma_append, lemma_just, publishes};
use crate::sensor::SensorView;
use crate::shot::{default_shot, text_arg, ShotView};
use vstd::prelude::*;

verus! {

// ---------------------------------------------------------------------------
// The shot clock
// ---------------------------------------------------------------------------

/// The last datapoint ends a shot, where one runs: the machine is idle or
/// purges, stops retracting, or retracts with a weight that has been stable
/// for two seconds.
pub open spec fn is_end(seen: Seq<Sighting>) -> bool {
    let before = last_status(seen.drop_last());
    let last = seen.last();
    ||| last.status == "idle"@
    ||| last.status == "purge"@
    ||| before == "retracting"@ && last.status != before
    ||| last.status == "retracting"@ && (first_stable(seen.drop_last()) matches Some(t0) && last.now
        - t0 >= 2000)
}

/// A shot runs after the datapoints: one has started, and none has ended it.
pub open spec fn extracting(seen: Seq<Sighting>) -> bool
    decreases seen.len(),
{
    seen.len() > 0 && (is_start(seen) || (extracting(seen.drop_last()) && !is_end(seen)))
}

/// When the last datapoint that started a shot came.
pub open spec fn started_at(seen: Seq<Sighting>) -> int
    decreases seen.len(),
{
    if seen.len() == 0 {
        0
    } else if is_start(seen) {
        seen.last().now
    } else {
        started_at(seen.drop_last())
    }
}

/// The last datapoint starts the timers over: the machine leaves idle to heat,
/// to close the valve, to retract or to start, or begins to heat.
pub open spec fn restarts(seen: Seq<Sighting>) -> bool {
    let before = last_status(seen.drop_last());
    let status = seen.last().status;
    ||| before == "idle"@ && (status == "heating"@ || status == "closing valve"@ || status
        == "retracting"@ || status == "starting..."@)
    ||| status == "heating"@ && before != "heating"@
}

/// The datapoint of an input, as far as it decides on shots.
pub open spec fn sighted(input: Input) -> Option<Sighting> {
    match input {
        Input::Line { raw, now } => match line_message(raw) {
            Some(MessageView::Shot(data)) => Some(
                Sighting { status: text_arg(data.status), stable: data.stable_weight, now },
            ),
            _ => None,
        },
        _ => None,
    }
}

/// What a datapoint does to the clock.
proof fn lemma_datapoint_clock(v: ReaderView, data: ShotView, now: int, seen: Seq<Sighting>)
    requires
        v.old_status == last_status(seen),
        v.time_flag == extracting(seen),
        v.time_flag ==> v.shot_start_ms == started_at(seen),
        v.time_flag ==> v.stable_start_ms == first_stable(seen),
        v.profile_time_ms == v.time_passed_ms,
    ensures
        ({
            let s = shot_step(v, data, now).state;
            let after = seen.push(
                Sighting { status: text_arg(data.status), stable: data.stable_weight, now },
            );
            let passed = now - started_at(after);
            let kept = s.data_sensors;
            &&& s.time_flag == extracting(after)
            &&& s.time_flag ==> s.shot_start_ms == started_at(after)
            &&& s.profile_time_ms == s.time_passed_ms
            &&& kept.time == s.time_passed_ms
            &&& kept == (ShotView {
                time: kept.time,
                profile_time: kept.time,
                is_extracting: extracting(after),
                ..data
            })
            &&& extracting(after) ==> kept.time == if passed < 0 {
                0
            } else if passed > i64::MAX {
                i64::MAX as int
            } else {
                passed
            }
            &&& !extracting(after) && restarts(after) ==> kept.time == 0
            &&& !extracting(after) && !restarts(after) ==> kept.time == v.time_passed_ms
        }),
{
    let status = text_arg(data.status);
    let after = seen.push(Sighting { status, stable: data.stable_weight, now });
    let a = extraction_step(v, status, data.stable_weight, now).state;
    let b = idle_step(a, status).state;
    let c = heating_step(b, status).state;
    assert(after.drop_last() =~= seen);
    lemma_statuses_differ();
    assert(a.time_flag == extracting(after));
    assert(a.time_flag ==> a.shot_start_ms == started_at(after));
}

/// The clock that the state keeps is the one that the datapoints tell.
proof fn lemma_clock_follows(start: int, inputs: Seq<Input>)
    ensures
        ({
            let v = state_after(start, inputs);
            let seen = sightings(inputs);
            &&& v.time_flag == extracting(seen)
            &&& v.time_flag ==> v.shot_start_ms == started_at(seen)
            &&& v.profile_time_ms == v.time_passed_ms
            &&& seen.len() == 0 ==> v.time_passed_ms == 0
            &&& seen.len() > 0 ==> v.data_sensors.time == v.time_passed_ms
        }),
    decreases inputs.len(),
{
    if inputs.len() > 0 {
        let before = inputs.drop_last();
        let v = state_after(start, before);
        lemma_clock_follows(start, before);
        law_state_follows_history(start, before);
        if let Input::Line { raw, now } = inputs.last() {
            lemma_line_frame(v, raw, now);
            if let Some(MessageView::Shot(data)) = line_message(raw) {
                lemma_datapoint_clock(prepare_step(v, raw).state, data, now, sightings(before));
            }
        }
    }
}

/// Every datapoint is kept and published as it came, with the clock of the
/// shot on it. While a shot runs, shot time and profile time are both the
/// milliseconds since the datapoint that started it. While none runs, both
/// stay at the value of the datapoint before, until the timers start over.
pub proof fn law_datapoints_carry_the_shot_clock(
    start: int,
    inputs: Seq<Input>,
    raw: Seq<char>,
    now: int,
    data: ShotView,
)
    requires
        line_message(raw) == Some(MessageView::Shot(data)),
    ensures
        ({
            let v = state_after(start, inputs);
            let s = line_step(v, raw, now);
            let earlier = sightings(inputs);
            let seen = earlier.push(
                Sighting {
                    status: match data.status {
                        Some(t) => t,
                        None => Seq::<char>::empty(),
                    },
                    stable: data.stable_weight,
                    now,
                },
            );
            let kept = s.state.snapshot().data_sensors;
            let passed = now - started_at(seen);
            &&& forall|d: ShotView|
                publishes(s.effects, #[trigger] status_event(d)) <==> d == kept
            &&& kept == (ShotView {
                time: kept.time,
                profile_time: kept.profile_time,
                is_extracting: extracting(seen),
                ..data
            })
            &&& kept.profile_time == kept.time
            &&& extracting(seen) ==> kept.time == if passed < 0 {
                0
            } else if passed > 0x7fff_ffff_ffff_ffff {
                0x7fff_ffff_ffff_ffff
            } else {
                passed
            }
            &&& !extracting(seen) && restarts(seen) ==> kept.time == 0
            &&& !extracting(seen) && !restarts(seen) && earlier.len() == 0 ==> kept.time == 0
            &&& !extracting(seen) && !restarts(seen) && earlier.len() > 0 ==> kept.time
                == v.snapshot().data_sensors.time
        }),
{
    let v = state_after(start, inputs);
    let a = prepare_step(v, raw);
    let b = message_step(a.state, line_message(raw), now);
    lemma_clock_follows(start, inputs);
    law_state_follows_history(start, inputs);
    lemma_line_frame(v, raw, now);
    lemma_datapoint_clock(a.state, data, now, sightings(inputs));
    lemma_status_events(v, raw, now, data);
}

/// The event of a datapoint.
pub open spec fn status_event(data: ShotView) -> EventView {
    EventView::Status { data }
}

/// The datapoint that a line publishes.
proof fn lemma_status_events(v: ReaderView, raw: Seq<char>, now: int, data: ShotView)
    requires
        v.wf(),
        line_message(raw) == Some(MessageView::Shot(data)),
    ensures
        forall|d: ShotView|
            publishes(line_step(v, raw, now).effects, #[trigger] status_event(d)) <==> d
                == line_step(v, raw, now).state.data_sensors,
{
    let s = line_step(v, raw, now);
    let kept = s.state.data_sensors;
    let a = told_before(v, raw);
    let b = told_course(v, text_arg(data.status), kept.is_extracting);
    let one = just(status_event(kept));
    let c = told_alarms(v, raw, now);
    law_effects_of_a_line(v, raw, now);
    assert(told_message(v, line_message(raw), s.state) =~= b + one);
    lemma_before_no_status(v, raw);
    lemma_course_no_status(v, text_arg(data.status), kept.is_extracting);
    lemma_alarms_no_status(v, raw, now);
    lemma_just(status_event(kept));
    lemma_append(b, one);
    lemma_append(a, b + one);
    lemma_append(a + (b + one), c);
    assert forall|d: ShotView|
        publishes(s.effects, #[trigger] status_event(d)) <==> d == kept by {
        assert(!publishes(a, status_event(d)));
        assert(!publishes(b, status_event(d)));
        assert(!publishes(c, status_event(d)));
        assert(publishes(one, status_event(d)) <==> status_event(d) == status_event(kept));
    }
}

/// Where no datapoint comes, the last one stays as it is; before the first one
/// the machine counts as idle.
pub proof fn law_other_inputs_keep_the_datapoint(start: int, inputs: Seq<Input>)
    ensures
        inputs.len() > 0 && sighted(inputs.last()) is None ==> state_after(
            start,
            inputs,
        ).snapshot().data_sensors == state_after(start, inputs.drop_last()).snapshot().data_sensors
            && sightings(inputs) == sightings(inputs.drop_last()),
        inputs.len() > 0 && sighted(inputs.last()) is Some ==> sightings(inputs) == sightings(
            inputs.drop_last(),
        ).push(sighted(inputs.last())->0),
        inputs.len() == 0 ==> state_after(start, inputs).snapshot().data_sensors == (ShotView {
            status: Some("idle"@),
            profile: Some("idle"@),
            time: -1,
            profile_time: -1,
            ..default_shot()
        }),
{
    if inputs.len() > 0 {
        if let Input::Line { raw, now } = inputs.last() {
            lemma_line_frame(state_after(start, inputs.drop_last()), raw, now);
        }
    }
}

// ---------------------------------------------------------------------------
// The snapshot
// ---------------------------------------------------------------------------

/// The input is a line that carries this message.
#[verifier::opaque]
pub open spec fn carries(input: Input, message: MessageView) -> bool {
    input matches Input::Line { raw, now } && line_message(raw) == Some(message)
}

/// The input is a line with sensor readings.
#[verifier::opaque]
pub open spec fn has_sensors(input: Input) -> bool {
    input matches Input::Line { raw, now } && (line_message(raw) matches Some(
        MessageView::Sensors(_),
    ))
}

/// The input is a line with machine information.
#[verifier::opaque]
pub open spec fn has_info(input: Input) -> bool {
    input matches Input::Line { raw, now } && (line_message(raw) matches Some(MessageView::Info(_)))
}

/// The input is a boot banner.
#[verifier::opaque]
pub open spec fn is_banner(input: Input) -> bool {
    input matches Input::Line { raw, now } && boot_banner(raw)
}

/// What the last input does to what the snapshot shows.
proof fn lemma_last_input(start: int, inputs: Seq<Input>)
    requires
        inputs.len() > 0,
    ensures
        ({
            let v = state_after(start, inputs.drop_last());
            let s = state_after(start, inputs);
            let last = inputs.last();
            &&& forall|data: SensorView| #[trigger]
                carries(last, MessageView::Sensors(data)) ==> s.sensors == Some(data)
            &&& !has_sensors(last) ==> s.sensors == v.sensors
            &&& forall|data: InfoView| #[trigger]
                carries(last, MessageView::Info(data)) ==> s.esp_info == Some(data)
            &&& is_banner(last) ==> s.esp_info is None && !has_info(last) && sighted(last) is None
            &&& !has_info(last) && !is_banner(last) ==> s.esp_info == v.esp_info
            &&& talks(last) ==> s.info_ready && !starts_over(last)
            &&& !talks(last) ==> s.info_ready == (v.info_ready && !starts_over(last))
        }),
{
    reveal(carries);
    reveal(has_sensors);
    reveal(has_info);
    reveal(is_banner);
    reveal(talks);
    reveal(starts_over);
    let v = state_after(start, inputs.drop_last());
    if let Input::Line { raw, now } = inputs.last() {
        lemma_line_frame(v, raw, now);
        if boot_banner(raw) {
            law_boot_banner_is_unrecognized(raw);
        }
    }
}

/// What the last input does to the profile.
proof fn lemma_last_profile(start: int, inputs: Seq<Input>)
    requires
        inputs.len() > 0,
    ensures
        state_after(start, inputs).profile_ready == (inputs.last() == (Input::Ready { ready: true })
            || (state_after(start, inputs.drop_last()).profile_ready && !drops_profile(
            inputs,
            inputs.len() - 1,
        ))),
{
    reveal(is_banner);
    reveal(starts_over);
    reveal(drops_profile);
    let before = inputs.drop_last();
    let v = state_after(start, before);
    law_state_follows_history(start, before);
    if let Input::Line { raw, now } = inputs.last() {
        lemma_line_frame(v, raw, now);
        if boot_banner(raw) {
            law_boot_banner_is_unrecognized(raw);
        }
    }
    assert(inputs.take(inputs.len() - 1) =~= before);
}

/// What dropped the profile is not changed by what came later.
proof fn lemma_earlier_drops(inputs: Seq<Input>)
    requires
        inputs.len() > 0,
    ensures
        forall|j: int|
            0 <= j < inputs.len() - 1 ==> #[trigger] drops_profile(inputs, j) == drops_profile(
                inputs.drop_last(),
                j,
            ),
{
    reveal(drops_profile);
    let before = inputs.drop_last();
    assert forall|j: int| 0 <= j < inputs.len() - 1 implies #[trigger] drops_profile(inputs, j)
        == drops_profile(before, j) by {
        assert(inputs.take(j) =~= before.take(j));
        assert(inputs[j] == before[j]);
    }
}

/// The snapshot shows the payload of the last line with sensor readings, and
/// none where there was no such line.
pub proof fn law_snapshot_shows_the_last_sensors(start: int, inputs: Seq<Input>)
    ensures
        (forall|i: int| 0 <= i < inputs.len() ==> !has_sensors(#[trigger] inputs[i]))
            ==> state_after(start, inputs).snapshot().sensors is None,
        forall|i: int, data: SensorView|
            0 <= i < inputs.len() && #[trigger] carries(inputs[i], MessageView::Sensors(data)) && (
            forall|j: int| i < j < inputs.len() ==> !has_sensors(#[trigger] inputs[j]))
                ==> state_after(start, inputs).snapshot().sensors == Some(data),
    decreases inputs.len(),
{
    if inputs.len() > 0 {
        let before = inputs.drop_last();
        let n = before.len() as int;
        let v = state_after(start, before);
        law_snapshot_shows_the_last_sensors(start, before);
        lemma_last_input(start, inputs);
        let after = state_after(start, inputs).snapshot().sensors;
        assert(inputs[n] == inputs.last());
        assert(!has_sensors(inputs[n]) ==> after == v.sensors);
        if forall|i: int| 0 <= i < inputs.len() ==> !has_sensors(#[trigger] inputs[i]) {
            assert forall|i: int| 0 <= i < n implies !has_sensors(#[trigger] before[i]) by {
                assert(!has_sensors(inputs[i]));
            }
        }
        assert forall|i: int, data: SensorView|
            0 <= i < inputs.len() && #[trigger] carries(inputs[i], MessageView::Sensors(data)) && (
            forall|j: int| i < j < inputs.len() ==> !has_sensors(#[trigger] inputs[j])) implies after
            == Some(data) by {
            if i < n {
                assert(carries(before[i], MessageView::Sensors(data)));
                assert(!has_sensors(inputs[n]));
                assert forall|j: int| i < j < n implies !has_sensors(#[trigger] before[j]) by {
                    assert(!has_sensors(inputs[j]));
                }
            }
        }
    }
}

/// The snapshot shows the payload of the last line with machine information
/// since the last boot banner, and none where there was no such line.
pub proof fn law_snapshot_shows_the_last_info(start: int, inputs: Seq<Input>)
    ensures
        (forall|i: int|
            0 <= i < inputs.len() && has_info(#[trigger] inputs[i]) ==> exists|j: int|
                i < j < inputs.len() && is_banner(#[trigger] inputs[j])) ==> state_after(
            start,
            inputs,
        ).snapshot().esp_info is None,
        forall|i: int, data: InfoView|
            0 <= i < inputs.len() && #[trigger] carries(inputs[i], MessageView::Info(data)) && (
            forall|j: int|
                i < j < inputs.len() ==> !has_info(#[trigger] inputs[j]) && !is_banner(inputs[j]))
                ==> state_after(start, inputs).snapshot().esp_info == Some(data),
    decreases inputs.len(),
{
    if inputs.len() > 0 {
        let before = inputs.drop_last();
        let n = before.len() as int;
        let v = state_after(start, before);
        law_snapshot_shows_the_last_info(start, before);
        lemma_last_input(start, inputs);
        let after = state_after(start, inputs).snapshot().esp_info;
        assert(inputs[n] == inputs.last());
        assert(!has_info(inputs[n]) && !is_banner(inputs[n]) ==> after == v.esp_info);
        assert(is_banner(inputs[n]) ==> after is None);
        if forall|i: int|
            0 <= i < inputs.len() && has_info(#[trigger] inputs[i]) ==> exists|j: int|
                i < j < inputs.len() && is_banner(#[trigger] inputs[j]) {
            assert(!has_info(inputs[n]));
            if !is_banner(inputs[n]) {
                assert forall|i: int| 0 <= i < n && has_info(#[trigger] before[i]) implies exists|
                    j: int,
                |
                    i < j < n && is_banner(#[trigger] before[j]) by {
                    assert(has_info(inputs[i]));
                    let j = choose|j: int|
                        i < j < inputs.len() && is_banner(#[trigger] inputs[j]);
                    assert(is_banner(before[j]));
                }
            }
        }
        assert forall|i: int, data: InfoView|
            0 <= i < inputs.len() && #[trigger] carries(inputs[i], MessageView::Info(data)) && (
            forall|j: int|
                i < j < inputs.len() ==> !has_info(#[trigger] inputs[j]) && !is_banner(
                    inputs[j],
                )) implies after == Some(data) by {
            if i < n {
                assert(carries(before[i], MessageView::Info(data)));
                assert(!has_info(inputs[n]) && !is_banner(inputs[n]));
                assert forall|j: int| i < j < n implies !has_info(#[trigger] before[j])
                    && !is_banner(before[j]) by {
                    assert(!has_info(inputs[j]) && !is_banner(inputs[j]));
                }
            }
        }
    }
}

/// The input is a line with which the machine talks: a datapoint or machine
/// information.
#[verifier::opaque]
pub open spec fn talks(input: Input) -> bool {
    sighted(input) is Some || has_info(input)
}

/// The input starts the machine over: a boot banner or a request for a reset.
#[verifier::opaque]
pub open spec fn starts_over(input: Input) -> bool {
    is_banner(input) || input is Reset
}

/// The machine counts as talking exactly where it sent a datapoint or machine
/// information since the last boot banner and the last request for a reset.
pub proof fn law_snapshot_tells_whether_the_machine_talks(start: int, inputs: Seq<Input>)
    ensures
        state_after(start, inputs).snapshot().info_ready <==> exists|i: int|
            0 <= i < inputs.len() && talks(#[trigger] inputs[i]) && forall|j: int|
                i < j < inputs.len() ==> !starts_over(#[trigger] inputs[j]),
    decreases inputs.len(),
{
    if inputs.len() > 0 {
        let before = inputs.drop_last();
        let n = before.len() as int;
        let v = state_after(start, before);
        law_snapshot_tells_whether_the_machine_talks(start, before);
        lemma_last_input(start, inputs);
        let after = state_after(start, inputs).info_ready;
        assert(inputs[n] == inputs.last());
        assert(talks(inputs[n]) ==> after && !starts_over(inputs[n]));
        assert(!talks(inputs[n]) ==> after == (v.info_ready && !starts_over(inputs[n])));
        if after && !talks(inputs[n]) {
            let i = choose|i: int|
                0 <= i < n && talks(#[trigger] before[i]) && forall|j: int|
                    i < j < n ==> !starts_over(#[trigger] before[j]);
            assert(talks(inputs[i]));
            assert forall|j: int| i < j < inputs.len() implies !starts_over(
                #[trigger] inputs[j],
            ) by {
                if j < n {
                    assert(!starts_over(before[j]));
                }
            }
        }
        if exists|i: int|
            0 <= i < inputs.len() && talks(#[trigger] inputs[i]) && forall|j: int|
                i < j < inputs.len() ==> !starts_over(#[trigger] inputs[j]) {
            let i = choose|i: int|
                0 <= i < inputs.len() && talks(#[trigger] inputs[i]) && forall|j: int|
                    i < j < inputs.len() ==> !starts_over(#[trigger] inputs[j]);
            if i < n {
                assert(!starts_over(inputs[n]));
                assert(talks(before[i]));
                assert forall|j: int| i < j < n implies !starts_over(#[trigger] before[j]) by {
                    assert(!starts_over(inputs[j]));
                }
            }
        }
    }
}

/// The input at `i` drops the profile: a boot banner, a request for a reset, a
/// profile that was dropped, or a datapoint with which the machine became idle.
#[verifier::opaque]
pub open spec fn drops_profile(inputs: Seq<Input>, i: int) -> bool {
    ||| starts_over(inputs[i])
    ||| inputs[i] == (Input::Ready { ready: false })
    ||| sighted(inputs[i]) matches Some(s) && s.status == "idle"@ && last_status(
        sightings(inputs.take(i)),
    ) != "idle"@
}

/// A profile counts as loaded exactly where one was loaded and nothing has
/// dropped it since.
pub proof fn law_snapshot_tells_whether_a_profile_is_loaded(start: int, inputs: Seq<Input>)
    ensures
        state_after(start, inputs).snapshot().profile_ready <==> exists|i: int|
            0 <= i < inputs.len() && #[trigger] inputs[i] == (Input::Ready { ready: true })
                && forall|j: int| i < j < inputs.len() ==> !#[trigger] drops_profile(inputs, j),
    decreases inputs.len(),
{
    if inputs.len() > 0 {
        let before = inputs.drop_last();
        let n = before.len() as int;
        let v = state_after(start, before);
        let loads = Input::Ready { ready: true };
        law_snapshot_tells_whether_a_profile_is_loaded(start, before);
        lemma_last_profile(start, inputs);
        lemma_earlier_drops(inputs);
        let after = state_after(start, inputs).profile_ready;
        assert(inputs[n] == inputs.last());
        if after && inputs[n] != loads {
            let i = choose|i: int|
                0 <= i < n && #[trigger] before[i] == loads && forall|j: int|
                    i < j < n ==> !#[trigger] drops_profile(before, j);
            assert(inputs[i] == loads);
            assert forall|j: int| i < j < inputs.len() implies !#[trigger] drops_profile(
                inputs,
                j,
            ) by {
                if j < n {
                    assert(!drops_profile(before, j));
                }
            }
        }
        if exists|i: int|
            0 <= i < inputs.len() && #[trigger] inputs[i] == loads && forall|j: int|
                i < j < inputs.len() ==> !#[trigger] drops_profile(inputs, j) {
            let i = choose|i: int|
                0 <= i < inputs.len() && #[trigger] inputs[i] == loads && forall|j: int|
                    i < j < inputs.len() ==> !#[trigger] drops_profile(inputs, j);
            if i < n {
                assert(!drops_profile(inputs, n));
                assert(before[i] == loads);
                assert forall|j: int| i < j < n implies !#[trigger] drops_profile(before, j) by {
                    assert(!drops_profile(inputs, j));
                }
            }
        }
    }
}

/// How many boot banners came since the last valid line.
pub open spec fn banners_since_valid(inputs: Seq<Input>) -> int
    decreases inputs.len(),
{
    if inputs.len() == 0 {
        0
    } else {
        match inputs.last() {
            Input::Line { raw, now } => if boot_banner(raw) {
                banners_since_valid(inputs.drop_last()) + 1
            } else if line_kind(raw) != LineKind::Unrecognized {
                0
            } else {
                banners_since_valid(inputs.drop_last())
            },
            _ => banners_since_valid(inputs.drop_last()),
        }
    }
}

/// The snapshot counts the boot banners since the last valid line, and starts
/// over with every third one.
pub proof fn law_snapshot_counts_banners(start: int, inputs: Seq<Input>)
    ensures
        state_after(start, inputs).snapshot().reset_count == banners_since_valid(inputs) % 3,
        banners_since_valid(inputs) >= 0,
    decreases inputs.len(),
{
    if inputs.len() > 0 {
        let before = inputs.drop_last();
        law_snapshot_counts_banners(start, before);
        law_state_follows_history(start, before);
        if let Input::Line { raw, now } = inputs.last() {
            crate::reader_laws::law_reset_count(state_after(start, before), raw, now);
        }
    }
}

}
