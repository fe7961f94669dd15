//! `HeaterTimeoutInfo,...` messages: heater and preheat timeout state.

use crate::decimal::{Decimal, DecimalView};
use crate::json::{json_float, Json, JsonView, Members};
use crate::pynum::{py_float, py_float_value};
use crate::text::texts;
use vstd::prelude::*;

verus! {

/// Heater timeout information from the firmware.
///
/// The field names, the `coffe` spelling among them, are part of the wire
/// contract.
#[derive(Debug, PartialEq, Eq)]
pub struct HeaterTimeoutInfo {
    /// Time remaining for the profile-end timeout.
    pub coffe_profile_end_remaining: Decimal,
    /// Total profile-end timeout.
    pub coffe_profile_end_timeout: Decimal,
    /// Time remaining for the preheat timeout.
    pub preheat_remaining: Decimal,
    /// Total preheat timeout.
    pub preheat_timeout: Decimal,
}

/// What a [`HeaterTimeoutInfo`] holds.
pub struct HeaterView {
    pub coffe_profile_end_remaining: DecimalView,
    pub coffe_profile_end_timeout: DecimalView,
    pub preheat_remaining: DecimalView,
    pub preheat_timeout: DecimalView,
}

impl View for HeaterTimeoutInfo {
    type V = HeaterView;

    open spec fn view(&self) -> HeaterView {
        HeaterView {
            coffe_profile_end_remaining: self.coffe_profile_end_remaining@,
            coffe_profile_end_timeout: self.coffe_profile_end_timeout@,
            preheat_remaining: self.preheat_remaining@,
            preheat_timeout: self.preheat_timeout@,
        }
    }
}

impl Clone for HeaterTimeoutInfo {
    fn clone(&self) -> (r: Self)
        ensures
            r == *self,
    {
        HeaterTimeoutInfo {
            coffe_profile_end_remaining: self.coffe_profile_end_remaining.clone(),
            coffe_profile_end_timeout: self.coffe_profile_end_timeout.clone(),
            preheat_remaining: self.preheat_remaining.clone(),
            preheat_timeout: self.preheat_timeout.clone(),
        }
    }
}

/// What a heater message stands for: exactly four floats.
pub open spec fn heater_message(args: Seq<Seq<char>>) -> Option<HeaterView> {
    if args.len() != 4 {
        None
    } else {
        match (
            py_float_value(args[0]),
            py_float_value(args[1]),
            py_float_value(args[2]),
            py_float_value(args[3]),
        ) {
            (Some(a), Some(b), Some(c), Some(d)) => Some(
                HeaterView {
                    coffe_profile_end_remaining: a,
                    coffe_profile_end_timeout: b,
                    preheat_remaining: c,
                    preheat_timeout: d,
                },
            ),
            _ => None,
        }
    }
}

/// The view of an optional message.
pub open spec fn opt_heater(v: Option<HeaterTimeoutInfo>) -> Option<HeaterView> {
    match v {
        Some(m) => Some(m@),
        None => None,
    }
}

impl HeaterView {
    /// The numbers are well-formed.
    pub open spec fn wf(self) -> bool {
        &&& self.coffe_profile_end_remaining.wf()
        &&& self.coffe_profile_end_timeout.wf()
        &&& self.preheat_remaining.wf()
        &&& self.preheat_timeout.wf()
    }

    /// The nested dictionary form.
    pub open spec fn dict(self) -> JsonView {
        JsonView::Object(
            seq![
                (
                    "coffe_profile_end"@,
                    JsonView::Object(
                        seq![
                            ("remaining"@, json_float(self.coffe_profile_end_remaining)),
                            ("timeout"@, json_float(self.coffe_profile_end_timeout)),
                        ],
                    ),
                ),
                (
                    "preheat"@,
                    JsonView::Object(
                        seq![
                            ("remaining"@, json_float(self.preheat_remaining)),
                            ("timeout"@, json_float(self.preheat_timeout)),
                        ],
                    ),
                ),
            ],
        )
    }
}

/// The object of one timeout.
fn timeout_object(remaining: &Decimal, timeout: &Decimal) -> (r: Json)
    ensures
        r.tree() == JsonView::Object(
            seq![("remaining"@, json_float(remaining@)), ("timeout"@, json_float(timeout@))],
        ),
{
    let mut m = Members::new();
    m.add("remaining", Json::float(remaining));
    m.add("timeout", Json::float(timeout));
    assert(m@ =~= seq![
        ("remaining"@, json_float(remaining@)),
        ("timeout"@, json_float(timeout@)),
    ]);
    m.build()
}

impl HeaterTimeoutInfo {
    /// Parses the arguments that follow the `HeaterTimeoutInfo,` prefix.
    /// Exactly four floats are required.
    pub fn from_args(args: &[&str]) -> (r: Option<Self>)
        ensures
            opt_heater(r) == heater_message(texts(args@)),
            r matches Some(m) ==> m@.wf(),
    {
        if args.len() != 4 {
            return None;
        }
        match (py_float(args[0]), py_float(args[1]), py_float(args[2]), py_float(args[3])) {
            (Some(a), Some(b), Some(c), Some(d)) => Some(
                HeaterTimeoutInfo {
                    coffe_profile_end_remaining: a,
                    coffe_profile_end_timeout: b,
                    preheat_remaining: c,
                    preheat_timeout: d,
                },
            ),
            _ => None,
        }
    }

    /// The nested dictionary form.
    pub fn to_dict(&self) -> (r: Json)
        ensures
            r.tree() == self@.dict(),
    {
        let mut m = Members::new();
        m.add(
            "coffe_profile_end",
            timeout_object(&self.coffe_profile_end_remaining, &self.coffe_profile_end_timeout),
        );
        m.add("preheat", timeout_object(&self.preheat_remaining, &self.preheat_timeout));
        assert(m@ =~= self@.dict()->Object_0);
        m.build()
    }
}

}
