//! `Sensors,...` messages: the state of every sensor on the machine.

use crate::decimal::{zero_view, Decimal, DecimalView};
use crate::esp_info::{bool_text, write_bool};
use crate::json::{json_float, json_py_float, Json, JsonView, Members};
use crate::letters::{lower, lowercase};
use crate::pynum::{
    float_text, format_py_float, nan_float_value, py_float_text, safe_float, safe_float_value,
    safe_float_with_nan, zero, PyFloat, PyFloatView,
};
use crate::text::{chars_of, owned_texts, same_text, split, split_text, texts};
use vstd::prelude::*;

verus! {

/// Current state of all machine sensors.
#[derive(Debug, PartialEq, Eq)]
pub struct SensorData {
    pub external_1: Decimal,
    pub external_2: Decimal,
    pub bar_up: Decimal,
    pub bar_mid_up: Decimal,
    pub bar_mid_down: Decimal,
    pub bar_down: Decimal,
    pub tube: Decimal,
    pub motor_temp: Decimal,
    pub lam_temp: Decimal,
    pub motor_position: Decimal,
    pub motor_speed: Decimal,
    pub motor_power: Decimal,
    pub motor_current: Decimal,
    pub bandheater_power: Decimal,
    pub bandheater_current: Decimal,
    pub pressure_sensor: Decimal,
    pub adc_0: Decimal,
    pub adc_1: Decimal,
    pub adc_2: Decimal,
    pub adc_3: Decimal,
    pub water_status: bool,
    pub motor_thermistor: PyFloat,
    pub weight_prediction: PyFloat,
}

/// What a [`SensorData`] holds.
pub struct SensorView {
    pub external_1: DecimalView,
    pub external_2: DecimalView,
    pub bar_up: DecimalView,
    pub bar_mid_up: DecimalView,
    pub bar_mid_down: DecimalView,
    pub bar_down: DecimalView,
    pub tube: DecimalView,
    pub motor_temp: DecimalView,
    pub lam_temp: DecimalView,
    pub motor_position: DecimalView,
    pub motor_speed: DecimalView,
    pub motor_power: DecimalView,
    pub motor_current: DecimalView,
    pub bandheater_power: DecimalView,
    pub bandheater_current: DecimalView,
    pub pressure_sensor: DecimalView,
    pub adc_0: DecimalView,
    pub adc_1: DecimalView,
    pub adc_2: DecimalView,
    pub adc_3: DecimalView,
    pub water_status: bool,
    pub motor_thermistor: PyFloatView,
    pub weight_prediction: PyFloatView,
}

impl View for SensorData {
    type V = SensorView;

    open spec fn view(&self) -> SensorView {
        SensorView {
            external_1: self.external_1@,
            external_2: self.external_2@,
            bar_up: self.bar_up@,
            bar_mid_up: self.bar_mid_up@,
            bar_mid_down: self.bar_mid_down@,
            bar_down: self.bar_down@,
            tube: self.tube@,
            motor_temp: self.motor_temp@,
            lam_temp: self.lam_temp@,
            motor_position: self.motor_position@,
            motor_speed: self.motor_speed@,
            motor_power: self.motor_power@,
            motor_current: self.motor_current@,
            bandheater_power: self.bandheater_power@,
            bandheater_current: self.bandheater_current@,
            pressure_sensor: self.pressure_sensor@,
            adc_0: self.adc_0@,
            adc_1: self.adc_1@,
            adc_2: self.adc_2@,
            adc_3: self.adc_3@,
            water_status: self.water_status,
            motor_thermistor: self.motor_thermistor@,
            weight_prediction: self.weight_prediction@,
        }
    }
}

impl Clone for SensorData {
    fn clone(&self) -> (r: Self)
        ensures
            r == *self,
    {
        SensorData {
            external_1: self.external_1.clone(),
            external_2: self.external_2.clone(),
            bar_up: self.bar_up.clone(),
            bar_mid_up: self.bar_mid_up.clone(),
            bar_mid_down: self.bar_mid_down.clone(),
            bar_down: self.bar_down.clone(),
            tube: self.tube.clone(),
            motor_temp: self.motor_temp.clone(),
            lam_temp: self.lam_temp.clone(),
            motor_position: self.motor_position.clone(),
            motor_speed: self.motor_speed.clone(),
            motor_power: self.motor_power.clone(),
            motor_current: self.motor_current.clone(),
            bandheater_power: self.bandheater_power.clone(),
            bandheater_current: self.bandheater_current.clone(),
            pressure_sensor: self.pressure_sensor.clone(),
            adc_0: self.adc_0.clone(),
            adc_1: self.adc_1.clone(),
            adc_2: self.adc_2.clone(),
            adc_3: self.adc_3.clone(),
            water_status: self.water_status,
            motor_thermistor: self.motor_thermistor.clone(),
            weight_prediction: self.weight_prediction.clone(),
        }
    }
}

/// The view of an optional message.
pub open spec fn opt_sensors(v: Option<SensorData>) -> Option<SensorView> {
    match v {
        Some(m) => Some(m@),
        None => None,
    }
}

/// The reading of the argument at `i`.
pub open spec fn reading(args: Seq<Seq<char>>, i: int) -> DecimalView {
    safe_float_value(args[i])->0
}

/// The sensors with the given readings, in the order of the wire: the
/// bandheater's current comes before its power.
pub open spec fn sensors_with(
    r: Seq<DecimalView>,
    water_status: bool,
    motor_thermistor: PyFloatView,
    weight_prediction: PyFloatView,
) -> SensorView {
    SensorView {
        external_1: r[0],
        external_2: r[1],
        bar_up: r[2],
        bar_mid_up: r[3],
        bar_mid_down: r[4],
        bar_down: r[5],
        tube: r[6],
        motor_temp: r[7],
        lam_temp: r[8],
        motor_position: r[9],
        motor_speed: r[10],
        motor_power: r[11],
        motor_current: r[12],
        bandheater_power: r[14],
        bandheater_current: r[13],
        pressure_sensor: r[15],
        adc_0: r[16],
        adc_1: r[17],
        adc_2: r[18],
        adc_3: r[19],
        water_status,
        motor_thermistor,
        weight_prediction,
    }
}

/// What a sensor message stands for.
pub open spec fn sensor_message(args: Seq<Seq<char>>) -> Option<SensorView> {
    if args.len() >= 23 && (forall|i: int|
        0 <= i < 20 ==> safe_float_value(#[trigger] args[i]) is Some) {
        Some(
            sensors_with(
                Seq::new(20, |i: int| reading(args, i)),
                lower(args[20]) == "true"@,
                nan_float_value(args[21]),
                nan_float_value(args[22]),
            ),
        )
    } else {
        None
    }
}

// ---------------------------------------------------------------------------
// Color-coded messages
// ---------------------------------------------------------------------------

/// A character of a sensor name.
pub open spec fn is_name_char(c: char) -> bool {
    'a' <= c <= 'z' || '0' <= c <= '9' || c == '_'
}

/// How many sensor name characters follow from `from` on.
pub open spec fn name_run(s: Seq<char>, from: int) -> nat
    decreases s.len() - from,
{
    if 0 <= from < s.len() && is_name_char(s[from]) {
        1 + name_run(s, from + 1)
    } else {
        0
    }
}

/// The escape sequence that opens a label: bold, in one of six colors, and a
/// blank.
pub open spec fn opens_label(s: Seq<char>, at: int) -> bool {
    &&& at + 8 <= s.len()
    &&& s[at] == '\u{1b}'
    &&& s[at + 1] == '['
    &&& s[at + 2] == '1'
    &&& s[at + 3] == ';'
    &&& s[at + 4] == '3'
    &&& '1' <= s[at + 5] <= '6'
    &&& s[at + 6] == 'm'
    &&& s[at + 7] == ' '
}

/// The escape sequence that ends a label.
pub open spec fn ends_label(s: Seq<char>, at: int) -> bool {
    &&& at + 4 <= s.len()
    &&& s[at] == '\u{1b}'
    &&& s[at + 1] == '['
    &&& s[at + 2] == '0'
    &&& s[at + 3] == 'm'
}

/// The length of the colored label at `at`, where one stands there.
pub open spec fn label_at(s: Seq<char>, at: int) -> Option<int> {
    let name = name_run(s, at + 8) as int;
    if opens_label(s, at) && ends_label(s, at + 8 + name) {
        Some(12 + name)
    } else {
        None
    }
}

/// The text from `from` on with a comma in the place of each label.
pub open spec fn without_labels(s: Seq<char>, from: int) -> Seq<char>
    decreases s.len() - from,
{
    if from >= s.len() {
        Seq::<char>::empty()
    } else {
        match label_at(s, from) {
            Some(len) => seq![','] + without_labels(s, from + len),
            None => seq![s[from]] + without_labels(s, from + 1),
        }
    }
}

/// The arguments of a color-coded message: what stands between the labels;
/// the text before the first one counts only where there is any.
pub open spec fn color_args(s: Seq<char>) -> Seq<Seq<char>> {
    let parts = split(without_labels(s, 0), ',');
    if parts[0].len() == 0 {
        parts.skip(1)
    } else {
        parts
    }
}

/// The length of the colored label at `at`, where one stands there.
fn match_color_label(s: &Vec<char>, at: usize) -> (r: Option<usize>)
    requires
        at <= s@.len(),
    ensures
        (match r {
            Some(len) => Some(len as int),
            None => None,
        }) == label_at(s@, at as int),
        r matches Some(len) ==> at + len <= s@.len(),
{
    let total: usize = s.len();
    if total - at < 8 {
        return None;
    }
    if s[at] != '\u{1b}' || s[at + 1] != '[' || s[at + 2] != '1' || s[at + 3] != ';' || s[at + 4]
        != '3' || s[at + 5] < '1' || s[at + 5] > '6' || s[at + 6] != 'm' || s[at + 7] != ' ' {
        return None;
    }
    let mut i: usize = at + 8;
    while i < total && (('a' <= s[i] && s[i] <= 'z') || ('0' <= s[i] && s[i] <= '9') || s[i] == '_')
        invariant
            total == s@.len(),
            at + 8 <= i <= total,
            name_run(s@, at + 8) == i - at - 8 + name_run(s@, i as int),
        decreases total - i,
    {
        i = i + 1;
    }
    if total - i >= 4 && s[i] == '\u{1b}' && s[i + 1] == '[' && s[i + 2] == '0' && s[i + 3] == 'm' {
        Some(i + 4 - at)
    } else {
        None
    }
}

/// The text with a comma in the place of each colored label.
fn strip_color_labels(input: &str) -> (r: String)
    ensures
        r@ == without_labels(input@, 0),
{
    let chars = chars_of(input);
    let total: usize = chars.len();
    let mut out = String::new();
    let mut i: usize = 0;
    assert(out@ + without_labels(input@, 0) =~= without_labels(input@, 0));
    while i < total
        invariant
            total == chars@.len(),
            chars@ == input@,
            i <= total,
            out@ + without_labels(input@, i as int) == without_labels(input@, 0),
        decreases total - i,
    {
        let ghost before = out@;
        match match_color_label(&chars, i) {
            Some(len) => {
                out.push(',');
                assert(out@ + without_labels(input@, i + len) =~= before + without_labels(
                    input@,
                    i as int,
                ));
                i = i + len;
            },
            None => {
                out.push(chars[i]);
                assert(out@ + without_labels(input@, i + 1) =~= before + without_labels(
                    input@,
                    i as int,
                ));
                i = i + 1;
            },
        }
    }
    assert(out@ =~= without_labels(input@, 0));
    out
}

/// The readings of the first arguments; nothing where one is no number.
fn read_floats(args: &[&str], count: usize) -> (r: Option<Vec<Decimal>>)
    requires
        count <= args@.len(),
    ensures
        r is Some <==> forall|i: int|
            0 <= i < count ==> safe_float_value(#[trigger] texts(args@)[i]) is Some,
        r matches Some(v) ==> v@.len() == count && forall|i: int|
            0 <= i < count ==> (#[trigger] v@[i])@ == reading(texts(args@), i) && v@[i]@.wf()
                && v@[i]@.is_finite(),
{
    let mut out: Vec<Decimal> = Vec::new();
    for i in 0..count
        invariant
            count <= args@.len(),
            out@.len() == i,
            forall|j: int| 0 <= j < i ==> safe_float_value(#[trigger] texts(args@)[j]) is Some,
            forall|j: int|
                0 <= j < i ==> (#[trigger] out@[j])@ == reading(texts(args@), j) && out@[j]@.wf()
                    && out@[j]@.is_finite(),
    {
        match safe_float(args[i]) {
            Some(v) => out.push(v),
            None => {
                assert(safe_float_value(texts(args@)[i as int]) is None);
                return None;
            },
        }
    }
    Some(out)
}

/// All sensors at zero.
pub open spec fn default_sensors() -> SensorView {
    SensorView {
        external_1: zero_view(),
        external_2: zero_view(),
        bar_up: zero_view(),
        bar_mid_up: zero_view(),
        bar_mid_down: zero_view(),
        bar_down: zero_view(),
        tube: zero_view(),
        motor_temp: zero_view(),
        lam_temp: zero_view(),
        motor_position: zero_view(),
        motor_speed: zero_view(),
        motor_power: zero_view(),
        motor_current: zero_view(),
        bandheater_power: zero_view(),
        bandheater_current: zero_view(),
        pressure_sensor: zero_view(),
        adc_0: zero_view(),
        adc_1: zero_view(),
        adc_2: zero_view(),
        adc_3: zero_view(),
        water_status: false,
        motor_thermistor: PyFloatView::Num(zero_view()),
        weight_prediction: PyFloatView::Num(zero_view()),
    }
}

impl SensorView {
    /// The readings in the order of the wire.
    pub open spec fn readings(self) -> Seq<DecimalView> {
        seq![
            self.external_1,
            self.external_2,
            self.bar_up,
            self.bar_mid_up,
            self.bar_mid_down,
            self.bar_down,
            self.tube,
            self.motor_temp,
            self.lam_temp,
            self.motor_position,
            self.motor_speed,
            self.motor_power,
            self.motor_current,
            self.bandheater_current,
            self.bandheater_power,
            self.pressure_sensor,
            self.adc_0,
            self.adc_1,
            self.adc_2,
            self.adc_3,
        ]
    }

    /// Every reading is a finite number with a well-formed literal, and the
    /// last two are well-formed.
    pub open spec fn wf(self) -> bool {
        &&& self.motor_thermistor.wf()
        &&& self.weight_prediction.wf()
        &&& forall|i: int|
            0 <= i < 20 ==> (#[trigger] self.readings()[i]).wf() && self.readings()[i].is_finite()
    }

    /// The wire arguments.
    pub open spec fn args(self) -> Seq<Seq<char>> {
        Seq::new(20, |i: int| float_text(self.readings()[i])) + seq![
            bool_text(self.water_status),
            py_float_text(self.motor_thermistor),
            py_float_text(self.weight_prediction),
        ]
    }

    /// The payload of the `sensors` socket.io event.
    pub open spec fn sio(self) -> JsonView {
        JsonView::Object(
            seq![
                ("t_ext_1"@, json_float(self.external_1)),
                ("t_ext_2"@, json_float(self.external_2)),
                ("t_bar_up"@, json_float(self.bar_up)),
                ("t_bar_mu"@, json_float(self.bar_mid_up)),
                ("t_bar_md"@, json_float(self.bar_mid_down)),
                ("t_bar_down"@, json_float(self.bar_down)),
                ("t_tube"@, json_float(self.tube)),
                ("t_motor_temp"@, json_float(self.motor_temp)),
                ("lam_temp"@, json_float(self.lam_temp)),
                ("p"@, json_float(self.pressure_sensor)),
                ("a_0"@, json_float(self.adc_0)),
                ("a_1"@, json_float(self.adc_1)),
                ("a_2"@, json_float(self.adc_2)),
                ("a_3"@, json_float(self.adc_3)),
                ("m_pos"@, json_float(self.motor_position)),
                ("m_spd"@, json_float(self.motor_speed)),
                ("m_pwr"@, json_float(self.motor_power)),
                ("m_cur"@, json_float(self.motor_current)),
                ("bh_pwr"@, json_float(self.bandheater_power)),
                ("bh_cur"@, json_float(self.bandheater_current)),
                ("w_stat"@, JsonView::Bool(self.water_status)),
                ("motor_temp"@, json_py_float(self.motor_thermistor)),
                ("weight_pred"@, json_py_float(self.weight_prediction)),
            ],
        )
    }
}

impl SensorData {
    /// Parses the arguments that follow the `Sensors,` prefix; nothing where
    /// one is missing or no number.
    #[verifier::rlimit(40)]
    pub fn from_args(args: &[&str]) -> (r: Option<Self>)
        ensures
            opt_sensors(r) == sensor_message(texts(args@)),
            r matches Some(m) ==> m@.wf(),
    {
        if args.len() < 23 {
            return None;
        }
        let values = match read_floats(args, 20) {
            Some(values) => values,
            None => return None,
        };
        let flag = lowercase(args[20]);
        let data = SensorData {
            external_1: values[0].clone(),
            external_2: values[1].clone(),
            bar_up: values[2].clone(),
            bar_mid_up: values[3].clone(),
            bar_mid_down: values[4].clone(),
            bar_down: values[5].clone(),
            tube: values[6].clone(),
            motor_temp: values[7].clone(),
            lam_temp: values[8].clone(),
            motor_position: values[9].clone(),
            motor_speed: values[10].clone(),
            motor_power: values[11].clone(),
            motor_current: values[12].clone(),
            bandheater_power: values[14].clone(),
            bandheater_current: values[13].clone(),
            pressure_sensor: values[15].clone(),
            adc_0: values[16].clone(),
            adc_1: values[17].clone(),
            adc_2: values[18].clone(),
            adc_3: values[19].clone(),
            water_status: same_text(flag.as_str(), "true"),
            motor_thermistor: safe_float_with_nan(args[21]),
            weight_prediction: safe_float_with_nan(args[22]),
        };
        assert(data@.readings() =~= Seq::new(20, |i: int| values@[i]@));
        assert(data@.readings() =~= Seq::new(20, |i: int| reading(texts(args@), i)));
        Some(data)
    }

    /// Parses the color-coded variant with one argument, in which colored
    /// sensor names separate the values.
    pub fn from_color_coded_args(color_separated: &str) -> (r: Option<Self>)
        ensures
            opt_sensors(r) == sensor_message(color_args(color_separated@)),
            r matches Some(m) ==> m@.wf(),
    {
        let replaced = strip_color_labels(color_separated);
        let mut args = split_text(replaced.as_str(), ',');
        let ghost parts = texts(args@);
        assert(parts[0] == args@[0]@);
        if args[0].unicode_len() == 0 {
            args.remove(0);
            assert(texts(args@) =~= parts.skip(1));
        }
        Self::from_args(args.as_slice())
    }

    /// The wire arguments that `from_args` reads.
    #[verifier::rlimit(40)]
    pub fn to_args(&self) -> (r: Vec<String>)
        ensures
            owned_texts(r@) == self@.args(),
    {
        let mut out: Vec<String> = Vec::new();
        out.push(format_py_float(&self.external_1));
        out.push(format_py_float(&self.external_2));
        out.push(format_py_float(&self.bar_up));
        out.push(format_py_float(&self.bar_mid_up));
        out.push(format_py_float(&self.bar_mid_down));
        out.push(format_py_float(&self.bar_down));
        out.push(format_py_float(&self.tube));
        out.push(format_py_float(&self.motor_temp));
        out.push(format_py_float(&self.lam_temp));
        out.push(format_py_float(&self.motor_position));
        out.push(format_py_float(&self.motor_speed));
        out.push(format_py_float(&self.motor_power));
        out.push(format_py_float(&self.motor_current));
        out.push(format_py_float(&self.bandheater_current));
        out.push(format_py_float(&self.bandheater_power));
        out.push(format_py_float(&self.pressure_sensor));
        out.push(format_py_float(&self.adc_0));
        out.push(format_py_float(&self.adc_1));
        out.push(format_py_float(&self.adc_2));
        out.push(format_py_float(&self.adc_3));
        out.push(write_bool(self.water_status));
        out.push(self.motor_thermistor.to_py_string());
        out.push(self.weight_prediction.to_py_string());
        assert(owned_texts(out@) =~= self@.args());
        out
    }

    /// The payload of the `sensors` socket.io event.
    #[verifier::rlimit(40)]
    pub fn to_sio_sensors(&self) -> (r: Json)
        ensures
            r.tree() == self@.sio(),
    {
        let mut m = Members::new();
        m.add("t_ext_1", Json::float(&self.external_1));
        m.add("t_ext_2", Json::float(&self.external_2));
        m.add("t_bar_up", Json::float(&self.bar_up));
        m.add("t_bar_mu", Json::float(&self.bar_mid_up));
        m.add("t_bar_md", Json::float(&self.bar_mid_down));
        m.add("t_bar_down", Json::float(&self.bar_down));
        m.add("t_tube", Json::float(&self.tube));
        m.add("t_motor_temp", Json::float(&self.motor_temp));
        m.add("lam_temp", Json::float(&self.lam_temp));
        m.add("p", Json::float(&self.pressure_sensor));
        m.add("a_0", Json::float(&self.adc_0));
        m.add("a_1", Json::float(&self.adc_1));
        m.add("a_2", Json::float(&self.adc_2));
        m.add("a_3", Json::float(&self.adc_3));
        m.add("m_pos", Json::float(&self.motor_position));
        m.add("m_spd", Json::float(&self.motor_speed));
        m.add("m_pwr", Json::float(&self.motor_power));
        m.add("m_cur", Json::float(&self.motor_current));
        m.add("bh_pwr", Json::float(&self.bandheater_power));
        m.add("bh_cur", Json::float(&self.bandheater_current));
        m.add("w_stat", Json::Bool(self.water_status));
        m.add("motor_temp", Json::py_float(&self.motor_thermistor));
        m.add("weight_pred", Json::py_float(&self.weight_prediction));
        assert(m@ =~= self@.sio()->Object_0);
        m.build()
    }
}

impl Default for SensorData {
    fn default() -> (r: Self)
        ensures
            r@ == default_sensors(),
            r@.wf(),
    {
        SensorData {
            external_1: zero(),
            external_2: zero(),
            bar_up: zero(),
            bar_mid_up: zero(),
            bar_mid_down: zero(),
            bar_down: zero(),
            tube: zero(),
            motor_temp: zero(),
            lam_temp: zero(),
            motor_position: zero(),
            motor_speed: zero(),
            motor_power: zero(),
            motor_current: zero(),
            bandheater_power: zero(),
            bandheater_current: zero(),
            pressure_sensor: zero(),
            adc_0: zero(),
            adc_1: zero(),
            adc_2: zero(),
            adc_3: zero(),
            water_status: false,
            motor_thermistor: PyFloat::Num(zero()),
            weight_prediction: PyFloat::Num(zero()),
        }
    }
}

}
