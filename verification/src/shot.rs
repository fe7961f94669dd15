//! `Data,...` messages: one datapoint of the machine in time, used to track
//! a shot.

use crate::decimal::{zero_view, Decimal, DecimalView};
use crate::esp_info::{bool_text, write_bool};
use crate::json::{
    json_float, json_optional, json_py_float, set_member, Json, JsonView, Members,
};
use crate::letters::{lower, lowercase};
use crate::pynum::{
    float_text, format_py_float, nan_float_value, py_float_text, safe_float, safe_float_value,
    safe_float_with_nan, strip_crlf, unquote, unquoted, zero, PyFloat, PyFloatView,
};
use crate::text::{opt_text, owned, owned_texts, same_text, texts, trimmed, CharSet};
use vstd::prelude::*;

verus! {

/// Machine state derived from the reported profile.
#[derive(Clone, Copy, Debug, PartialEq, Eq, Structural)]
pub enum MachineState {
    Idle,
    Purge,
    Home,
    Brewing,
}

impl MachineState {
    /// The name of the state.
    pub open spec fn name_text(self) -> Seq<char> {
        match self {
            MachineState::Idle => "idle"@,
            MachineState::Purge => "purge"@,
            MachineState::Home => "home"@,
            MachineState::Brewing => "brewing"@,
        }
    }

    /// The name of the state.
    pub fn name(self) -> (r: &'static str)
        ensures
            r@ == self.name_text(),
    {
        match self {
            MachineState::Idle => "idle",
            MachineState::Purge => "purge",
            MachineState::Home => "home",
            MachineState::Brewing => "brewing",
        }
    }
}

/// The state that a profile stands for.
pub open spec fn profile_state(profile: Option<Seq<char>>) -> MachineState {
    match profile {
        None => MachineState::Idle,
        Some(p) => if p == "idle"@ {
            MachineState::Idle
        } else if p == "Purge"@ {
            MachineState::Purge
        } else if p == "Home"@ {
            MachineState::Home
        } else {
            MachineState::Brewing
        },
    }
}

/// One machine datapoint in time.
#[derive(Debug, PartialEq, Eq)]
pub struct ShotData {
    pub pressure: PyFloat,
    pub flow: PyFloat,
    pub weight: PyFloat,
    pub stable_weight: bool,
    pub temperature: PyFloat,
    pub status: Option<String>,
    pub profile: Option<String>,
    pub time: i64,
    pub profile_time: i64,
    pub state: MachineState,
    pub is_extracting: bool,
    pub gravimetric_flow: PyFloat,
    pub main_controller_kind: Option<String>,
    pub main_setpoint: Decimal,
    pub aux_controller_kind: Option<String>,
    pub aux_setpoint: Decimal,
    pub is_aux_controller_active: bool,
}

/// What a [`ShotData`] holds.
pub struct ShotView {
    pub pressure: PyFloatView,
    pub flow: PyFloatView,
    pub weight: PyFloatView,
    pub stable_weight: bool,
    pub temperature: PyFloatView,
    pub status: Option<Seq<char>>,
    pub profile: Option<Seq<char>>,
    pub time: int,
    pub profile_time: int,
    pub state: MachineState,
    pub is_extracting: bool,
    pub gravimetric_flow: PyFloatView,
    pub main_controller_kind: Option<Seq<char>>,
    pub main_setpoint: DecimalView,
    pub aux_controller_kind: Option<Seq<char>>,
    pub aux_setpoint: DecimalView,
    pub is_aux_controller_active: bool,
}

impl View for ShotData {
    type V = ShotView;

    open spec fn view(&self) -> ShotView {
        ShotView {
            pressure: self.pressure@,
            flow: self.flow@,
            weight: self.weight@,
            stable_weight: self.stable_weight,
            temperature: self.temperature@,
            status: opt_text(self.status),
            profile: opt_text(self.profile),
            time: self.time as int,
            profile_time: self.profile_time as int,
            state: self.state,
            is_extracting: self.is_extracting,
            gravimetric_flow: self.gravimetric_flow@,
            main_controller_kind: opt_text(self.main_controller_kind),
            main_setpoint: self.main_setpoint@,
            aux_controller_kind: opt_text(self.aux_controller_kind),
            aux_setpoint: self.aux_setpoint@,
            is_aux_controller_active: self.is_aux_controller_active,
        }
    }
}

/// A copy of an optional text.
pub fn clone_optional(t: &Option<String>) -> (r: Option<String>)
    ensures
        r == *t,
{
    match t {
        Some(s) => Some(s.clone()),
        None => None,
    }
}

impl Clone for ShotData {
    fn clone(&self) -> (r: Self)
        ensures
            r == *self,
    {
        ShotData {
            pressure: self.pressure.clone(),
            flow: self.flow.clone(),
            weight: self.weight.clone(),
            stable_weight: self.stable_weight,
            temperature: self.temperature.clone(),
            status: clone_optional(&self.status),
            profile: clone_optional(&self.profile),
            time: self.time,
            profile_time: self.profile_time,
            state: self.state,
            is_extracting: self.is_extracting,
            gravimetric_flow: self.gravimetric_flow.clone(),
            main_controller_kind: clone_optional(&self.main_controller_kind),
            main_setpoint: self.main_setpoint.clone(),
            aux_controller_kind: clone_optional(&self.aux_controller_kind),
            aux_setpoint: self.aux_setpoint.clone(),
            is_aux_controller_active: self.is_aux_controller_active,
        }
    }
}

/// The view of an optional message.
pub open spec fn opt_shot(v: Option<ShotData>) -> Option<ShotView> {
    match v {
        Some(m) => Some(m@),
        None => None,
    }
}

// ---------------------------------------------------------------------------
// Reading
// ---------------------------------------------------------------------------

/// The text of the argument at `i`, without line ends and percent escapes.
pub open spec fn text_field(args: Seq<Seq<char>>, i: int) -> Option<Seq<char>> {
    if i < args.len() {
        Some(unquoted(trimmed(args[i], CharSet::LineEnds)))
    } else {
        None
    }
}

/// The controller kind of an argument; `none` stands for none.
pub open spec fn kind_field(arg: Seq<char>) -> Option<Seq<char>> {
    let kind = trimmed(arg, CharSet::LineEnds);
    if kind == "none"@ {
        None
    } else {
        Some(kind)
    }
}

/// The setpoint of an argument.
pub open spec fn setpoint_field(arg: Seq<char>) -> Option<DecimalView> {
    safe_float_value(trimmed(arg, CharSet::LineEnds))
}

/// What the controller block holds.
pub struct ControllersView {
    pub main_kind: Option<Seq<char>>,
    pub main_setpoint: DecimalView,
    pub aux_kind: Option<Seq<char>>,
    pub aux_setpoint: DecimalView,
    pub aux_active: bool,
    pub gravimetric_flow: PyFloatView,
}

/// The controller block of a message: only messages with more than twelve
/// arguments carry one. Its fields are read in order, and the first setpoint
/// that is no number leaves everything from there on at its default.
pub open spec fn controllers_of(args: Seq<Seq<char>>) -> ControllersView {
    let present = args.len() > 12;
    let main_read = present && setpoint_field(args[8]) is Some;
    let aux_read = main_read && setpoint_field(args[10]) is Some;
    ControllersView {
        main_kind: if present {
            kind_field(args[7])
        } else {
            None
        },
        main_setpoint: if main_read {
            setpoint_field(args[8])->0
        } else {
            zero_view()
        },
        aux_kind: if main_read {
            kind_field(args[9])
        } else {
            None
        },
        aux_setpoint: if aux_read {
            setpoint_field(args[10])->0
        } else {
            zero_view()
        },
        aux_active: aux_read && trimmed(args[11], CharSet::LineEnds) == "true"@,
        gravimetric_flow: if aux_read {
            nan_float_value(args[12])
        } else {
            PyFloatView::Num(zero_view())
        },
    }
}

/// What a datapoint message stands for: at least five arguments.
pub open spec fn shot_message(args: Seq<Seq<char>>) -> Option<ShotView> {
    let controllers = controllers_of(args);
    if args.len() < 5 {
        None
    } else {
        Some(
            ShotView {
                pressure: nan_float_value(args[0]),
                flow: nan_float_value(args[1]),
                weight: nan_float_value(args[2]),
                stable_weight: trimmed(args[3], CharSet::LineEnds) == "S"@,
                temperature: nan_float_value(args[4]),
                status: text_field(args, 5),
                profile: text_field(args, 6),
                time: -1,
                profile_time: -1,
                state: profile_state(text_field(args, 6)),
                is_extracting: false,
                gravimetric_flow: controllers.gravimetric_flow,
                main_controller_kind: controllers.main_kind,
                main_setpoint: controllers.main_setpoint,
                aux_controller_kind: controllers.aux_kind,
                aux_setpoint: controllers.aux_setpoint,
                is_aux_controller_active: controllers.aux_active,
            },
        )
    }
}

/// The controller block.
struct Controllers {
    main_kind: Option<String>,
    main_setpoint: Decimal,
    aux_kind: Option<String>,
    aux_setpoint: Decimal,
    aux_active: bool,
    gravimetric_flow: PyFloat,
}

impl View for Controllers {
    type V = ControllersView;

    closed spec fn view(&self) -> ControllersView {
        ControllersView {
            main_kind: opt_text(self.main_kind),
            main_setpoint: self.main_setpoint@,
            aux_kind: opt_text(self.aux_kind),
            aux_setpoint: self.aux_setpoint@,
            aux_active: self.aux_active,
            gravimetric_flow: self.gravimetric_flow@,
        }
    }
}

/// The controller kind of an argument; `none` stands for none.
fn controller_kind(arg: &str) -> (r: Option<String>)
    ensures
        opt_text(r) == kind_field(arg@),
{
    let kind = strip_crlf(arg);
    if same_text(kind, "none") {
        None
    } else {
        Some(owned(kind))
    }
}

/// Reads the controller block.
fn read_controllers(args: &[&str]) -> (r: Controllers)
    ensures
        r@ == controllers_of(texts(args@)),
        r.main_setpoint@.wf() && r.main_setpoint@.is_finite(),
        r.aux_setpoint@.wf() && r.aux_setpoint@.is_finite(),
        r.gravimetric_flow@.wf(),
{
    let mut c = Controllers {
        main_kind: None,
        main_setpoint: zero(),
        aux_kind: None,
        aux_setpoint: zero(),
        aux_active: false,
        gravimetric_flow: PyFloat::Num(zero()),
    };
    if args.len() <= 12 {
        return c;
    }
    c.main_kind = controller_kind(args[7]);
    match safe_float(strip_crlf(args[8])) {
        Some(v) => {
            c.main_setpoint = v;
        },
        None => {
            return c;
        },
    }
    c.aux_kind = controller_kind(args[9]);
    match safe_float(strip_crlf(args[10])) {
        Some(v) => {
            c.aux_setpoint = v;
        },
        None => {
            return c;
        },
    }
    c.aux_active = same_text(strip_crlf(args[11]), "true");
    c.gravimetric_flow = safe_float_with_nan(args[12]);
    c
}

/// The text of the argument at `i`.
fn read_text(args: &[&str], i: usize) -> (r: Option<String>)
    ensures
        opt_text(r) == text_field(texts(args@), i as int),
{
    if i < args.len() {
        Some(unquote(strip_crlf(args[i])))
    } else {
        None
    }
}

/// The state that a profile stands for.
fn state_of(profile: &Option<String>) -> (r: MachineState)
    ensures
        r == profile_state(opt_text(*profile)),
{
    match profile {
        None => MachineState::Idle,
        Some(p) => if same_text(p.as_str(), "idle") {
            MachineState::Idle
        } else if same_text(p.as_str(), "Purge") {
            MachineState::Purge
        } else if same_text(p.as_str(), "Home") {
            MachineState::Home
        } else {
            MachineState::Brewing
        },
    }
}

// ---------------------------------------------------------------------------
// Writing
// ---------------------------------------------------------------------------

/// The wire form of an optional text.
pub open spec fn text_arg(t: Option<Seq<char>>) -> Seq<char> {
    match t {
        Some(s) => s,
        None => Seq::<char>::empty(),
    }
}

/// The wire form of a controller kind.
pub open spec fn kind_arg(kind: Option<Seq<char>>) -> Seq<char> {
    match kind {
        Some(k) => k,
        None => "none"@,
    }
}

/// The wire form of weight stability.
pub open spec fn stable_arg(stable: bool) -> Seq<char> {
    if stable {
        "S"@
    } else {
        "U"@
    }
}

fn write_text(t: &Option<String>) -> (r: String)
    ensures
        r@ == text_arg(opt_text(*t)),
{
    match t {
        Some(s) => s.clone(),
        None => String::new(),
    }
}

fn write_kind(kind: &Option<String>) -> (r: String)
    ensures
        r@ == kind_arg(opt_text(*kind)),
{
    match kind {
        Some(k) => k.clone(),
        None => owned("none"),
    }
}

fn write_stable(stable: bool) -> (r: String)
    ensures
        r@ == stable_arg(stable),
{
    if stable {
        owned("S")
    } else {
        owned("U")
    }
}

/// The datapoint of a machine that has not reported yet.
pub open spec fn default_shot() -> ShotView {
    ShotView {
        pressure: PyFloatView::Num(zero_view()),
        flow: PyFloatView::Num(zero_view()),
        weight: PyFloatView::Num(zero_view()),
        stable_weight: false,
        temperature: PyFloatView::Num(zero_view()),
        status: None,
        profile: None,
        time: -1,
        profile_time: -1,
        state: MachineState::Idle,
        is_extracting: false,
        gravimetric_flow: PyFloatView::Num(zero_view()),
        main_controller_kind: None,
        main_setpoint: zero_view(),
        aux_controller_kind: None,
        aux_setpoint: zero_view(),
        is_aux_controller_active: false,
    }
}

/// The setpoints with those of one controller added under its kind in lower
/// case, which becomes the active one where `active` says so.
pub open spec fn with_controller(
    setpoints: Seq<(Seq<char>, JsonView)>,
    kind: Option<Seq<char>>,
    setpoint: DecimalView,
    active: bool,
) -> Seq<(Seq<char>, JsonView)> {
    match kind {
        None => setpoints,
        Some(k) => {
            let added = set_member(setpoints, lower(k), json_float(setpoint));
            if active {
                set_member(added, "active"@, JsonView::Text(lower(k)))
            } else {
                added
            }
        },
    }
}

impl ShotView {
    /// The numbers are well-formed and the setpoints finite.
    pub open spec fn wf(self) -> bool {
        &&& self.pressure.wf()
        &&& self.flow.wf()
        &&& self.weight.wf()
        &&& self.temperature.wf()
        &&& self.gravimetric_flow.wf()
        &&& self.main_setpoint.wf() && self.main_setpoint.is_finite()
        &&& self.aux_setpoint.wf() && self.aux_setpoint.is_finite()
    }

    /// The same datapoint, stamped with shot time and extraction state.
    pub open spec fn stamped(self, time: int, is_extracting: bool, profile_time: int) -> ShotView {
        ShotView { time, is_extracting, profile_time, ..self }
    }

    /// The wire arguments.
    pub open spec fn args(self) -> Seq<Seq<char>> {
        seq![
            py_float_text(self.pressure),
            py_float_text(self.flow),
            py_float_text(self.weight),
            stable_arg(self.stable_weight),
            py_float_text(self.temperature),
            text_arg(self.status),
            text_arg(self.profile),
            kind_arg(self.main_controller_kind),
            float_text(self.main_setpoint),
            kind_arg(self.aux_controller_kind),
            float_text(self.aux_setpoint),
            bool_text(self.is_aux_controller_active),
            py_float_text(self.gravimetric_flow),
        ]
    }

    /// The setpoints of the `status` event: those of the controllers, and
    /// which one is active. The main controller is, unless the auxiliary one
    /// says that it is.
    pub open spec fn setpoints(self) -> Seq<(Seq<char>, JsonView)> {
        let main = with_controller(
            seq![("active"@, JsonView::Null)],
            self.main_controller_kind,
            self.main_setpoint,
            true,
        );
        with_controller(
            main,
            self.aux_controller_kind,
            self.aux_setpoint,
            self.is_aux_controller_active,
        )
    }

    /// The sensor readings of the `status` event.
    pub open spec fn sensors(self) -> Seq<(Seq<char>, JsonView)> {
        seq![
            ("p"@, json_py_float(self.pressure)),
            ("f"@, json_py_float(self.flow)),
            ("w"@, json_py_float(self.weight)),
            ("t"@, json_py_float(self.temperature)),
            ("g"@, json_py_float(self.gravimetric_flow)),
        ]
    }

    /// The payload of the `status` socket.io event.
    pub open spec fn sio(self) -> JsonView {
        JsonView::Object(
            seq![
                ("name"@, json_optional(self.status)),
                ("sensors"@, JsonView::Object(self.sensors())),
                ("setpoints"@, JsonView::Object(self.setpoints())),
                ("time"@, JsonView::Integer(self.time)),
                ("profile"@, json_optional(self.profile)),
                ("profile_time"@, JsonView::Integer(self.profile_time)),
                ("state"@, JsonView::Text(self.state.name_text())),
                ("extracting"@, JsonView::Bool(self.is_extracting)),
            ],
        )
    }
}

/// Adds one controller to the setpoints.
fn add_controller(setpoints: &mut Members, kind: &Option<String>, setpoint: &Decimal, active: bool)
    ensures
        final(setpoints)@ == with_controller(
            old(setpoints)@,
            opt_text(*kind),
            setpoint@,
            active,
        ),
{
    match kind {
        None => {},
        Some(k) => {
            let key = lowercase(k.as_str());
            setpoints.set(key.as_str(), Json::float(setpoint));
            if active {
                setpoints.set("active", Json::string(key.as_str()));
            }
        },
    }
}

impl ShotData {
    /// Parses the arguments that follow the `Data,` prefix: nothing where
    /// there are fewer than five. The status and the profile are decoded;
    /// where they are missing, the datapoint has none.
    #[verifier::rlimit(40)]
    pub fn from_args(args: &[&str]) -> (r: Option<Self>)
        ensures
            opt_shot(r) == shot_message(texts(args@)),
            r matches Some(m) ==> m@.wf(),
    {
        if args.len() < 5 {
            return None;
        }
        let status = read_text(args, 5);
        let profile = read_text(args, 6);
        let controllers = read_controllers(args);
        let state = state_of(&profile);
        Some(
            ShotData {
                pressure: safe_float_with_nan(args[0]),
                flow: safe_float_with_nan(args[1]),
                weight: safe_float_with_nan(args[2]),
                stable_weight: same_text(strip_crlf(args[3]), "S"),
                temperature: safe_float_with_nan(args[4]),
                status,
                profile,
                time: -1,
                profile_time: -1,
                state,
                is_extracting: false,
                gravimetric_flow: controllers.gravimetric_flow,
                main_controller_kind: controllers.main_kind,
                main_setpoint: controllers.main_setpoint,
                aux_controller_kind: controllers.aux_kind,
                aux_setpoint: controllers.aux_setpoint,
                is_aux_controller_active: controllers.aux_active,
            },
        )
    }

    /// The same datapoint, stamped with shot time and extraction state.
    pub fn clone_with_time_and_state(&self, time: i64, is_extracting: bool, profile_time: i64) -> (r:
        Self)
        ensures
            r@ == self@.stamped(time as int, is_extracting, profile_time as int),
    {
        let mut r = self.clone();
        r.time = time;
        r.is_extracting = is_extracting;
        r.profile_time = profile_time;
        r
    }

    /// The wire arguments that `from_args` reads.
    #[verifier::rlimit(40)]
    pub fn to_args(&self) -> (r: Vec<String>)
        ensures
            owned_texts(r@) == self@.args(),
    {
        let mut out: Vec<String> = Vec::new();
        out.push(self.pressure.to_py_string());
        out.push(self.flow.to_py_string());
        out.push(self.weight.to_py_string());
        out.push(write_stable(self.stable_weight));
        out.push(self.temperature.to_py_string());
        out.push(write_text(&self.status));
        out.push(write_text(&self.profile));
        out.push(write_kind(&self.main_controller_kind));
        out.push(format_py_float(&self.main_setpoint));
        out.push(write_kind(&self.aux_controller_kind));
        out.push(format_py_float(&self.aux_setpoint));
        out.push(write_bool(self.is_aux_controller_active));
        out.push(self.gravimetric_flow.to_py_string());
        assert(owned_texts(out@) =~= self@.args());
        out
    }

    /// The payload of the `status` socket.io event.
    #[verifier::rlimit(40)]
    pub fn to_sio(&self) -> (r: Json)
        ensures
            r.tree() == self@.sio(),
    {
        let mut setpoints = Members::new();
        setpoints.add("active", Json::Null);
        assert(setpoints@ =~= seq![("active"@, JsonView::Null)]);
        add_controller(&mut setpoints, &self.main_controller_kind, &self.main_setpoint, true);
        add_controller(
            &mut setpoints,
            &self.aux_controller_kind,
            &self.aux_setpoint,
            self.is_aux_controller_active,
        );
        let mut sensors = Members::new();
        sensors.add("p", Json::py_float(&self.pressure));
        sensors.add("f", Json::py_float(&self.flow));
        sensors.add("w", Json::py_float(&self.weight));
        sensors.add("t", Json::py_float(&self.temperature));
        sensors.add("g", Json::py_float(&self.gravimetric_flow));
        assert(sensors@ =~= self@.sensors());
        let mut m = Members::new();
        m.add("name", Json::optional(&self.status));
        m.add("sensors", sensors.build());
        m.add("setpoints", setpoints.build());
        m.add("time", Json::Integer(self.time));
        m.add("profile", Json::optional(&self.profile));
        m.add("profile_time", Json::Integer(self.profile_time));
        m.add("state", Json::string(self.state.name()));
        m.add("extracting", Json::Bool(self.is_extracting));
        assert(m@ =~= self@.sio()->Object_0);
        m.build()
    }
}

impl Default for ShotData {
    fn default() -> (r: Self)
        ensures
            r@ == default_shot(),
            r@.wf(),
    {
        ShotData {
            pressure: PyFloat::Num(zero()),
            flow: PyFloat::Num(zero()),
            weight: PyFloat::Num(zero()),
            stable_weight: false,
            temperature: PyFloat::Num(zero()),
            status: None,
            profile: None,
            time: -1,
            profile_time: -1,
            state: MachineState::Idle,
            is_extracting: false,
            gravimetric_flow: PyFloat::Num(zero()),
            main_controller_kind: None,
            main_setpoint: zero(),
            aux_controller_kind: None,
            aux_setpoint: zero(),
            is_aux_controller_active: false,
        }
    }
}

}
