//! `ESPInfo,...` messages: firmware version and machine identity.

use crate::canonical::lemma_plain_number;
use crate::decimal::{plain, zero_view, Decimal, DecimalView};
use crate::digits::{int_text, write_int};
use crate::json::{json_float, Json, JsonView, Members};
use crate::letters::{lower, lowercase};
use crate::pynum::{
    float_text, format_py_float, plain_decimal, py_float, py_float_value, py_int, py_int_value, zero,
};
use crate::text::{owned, owned_texts, same_text, texts};
use vstd::prelude::*;

verus! {

/// Firmware and status information.
#[derive(Debug, PartialEq, Eq)]
pub struct EspInfo {
    pub firmware_v: String,
    pub esp_pinout: i64,
    pub main_voltage: Decimal,
    pub color: String,
    pub serial_number: String,
    pub batch_number: String,
    pub build_date: String,
    pub scale_module: String,
    pub partial_retraction: Decimal,
    pub auto_purge_after_shot: bool,
}

/// What an [`EspInfo`] holds.
pub struct InfoView {
    pub firmware_v: Seq<char>,
    pub esp_pinout: int,
    pub main_voltage: DecimalView,
    pub color: Seq<char>,
    pub serial_number: Seq<char>,
    pub batch_number: Seq<char>,
    pub build_date: Seq<char>,
    pub scale_module: Seq<char>,
    pub partial_retraction: DecimalView,
    pub auto_purge_after_shot: bool,
}

impl View for EspInfo {
    type V = InfoView;

    open spec fn view(&self) -> InfoView {
        InfoView {
            firmware_v: self.firmware_v@,
            esp_pinout: self.esp_pinout as int,
            main_voltage: self.main_voltage@,
            color: self.color@,
            serial_number: self.serial_number@,
            batch_number: self.batch_number@,
            build_date: self.build_date@,
            scale_module: self.scale_module@,
            partial_retraction: self.partial_retraction@,
            auto_purge_after_shot: self.auto_purge_after_shot,
        }
    }
}

impl Clone for EspInfo {
    fn clone(&self) -> (r: Self)
        ensures
            r == *self,
    {
        EspInfo {
            firmware_v: self.firmware_v.clone(),
            esp_pinout: self.esp_pinout,
            main_voltage: self.main_voltage.clone(),
            color: self.color.clone(),
            serial_number: self.serial_number.clone(),
            batch_number: self.batch_number.clone(),
            build_date: self.build_date.clone(),
            scale_module: self.scale_module.clone(),
            partial_retraction: self.partial_retraction.clone(),
            auto_purge_after_shot: self.auto_purge_after_shot,
        }
    }
}

/// The pinout that the second argument gives; it used to be the fan status,
/// so any other text counts as pinout 0.
pub open spec fn info_pinout(args: Seq<Seq<char>>) -> int {
    if args.len() < 2 {
        0
    } else {
        match py_int_value(args[1]) {
            Some(v) => v,
            None => 0,
        }
    }
}

/// The identity field at `i`, which only longer messages carry.
pub open spec fn info_field(args: Seq<Seq<char>>, i: int) -> Seq<char> {
    if args.len() >= 8 {
        args[i]
    } else {
        Seq::<char>::empty()
    }
}

/// What an information message stands for. Fields came with firmware
/// history: at least three arguments, identity from eight on, the retraction
/// from nine on, the automatic purge from ten on.
pub open spec fn info_message(args: Seq<Seq<char>>) -> Option<InfoView> {
    let retraction = if args.len() >= 9 {
        py_float_value(args[8])
    } else {
        Some(plain("45"@))
    };
    if args.len() < 3 {
        None
    } else {
        match (py_float_value(args[2]), retraction) {
            (Some(main_voltage), Some(partial_retraction)) => Some(
                InfoView {
                    firmware_v: args[0],
                    esp_pinout: info_pinout(args),
                    main_voltage,
                    color: info_field(args, 3),
                    serial_number: info_field(args, 4),
                    batch_number: info_field(args, 5),
                    build_date: info_field(args, 6),
                    scale_module: info_field(args, 7),
                    partial_retraction,
                    auto_purge_after_shot: args.len() >= 10 && lower(args[9]) == "true"@,
                },
            ),
            _ => None,
        }
    }
}

/// The view of an optional message.
pub open spec fn opt_info(v: Option<EspInfo>) -> Option<InfoView> {
    match v {
        Some(m) => Some(m@),
        None => None,
    }
}

/// The identity field at `i`.
fn identity_field(args: &[&str], i: usize) -> (r: String)
    requires
        i < 8,
    ensures
        r@ == info_field(texts(args@), i as int),
{
    if args.len() >= 8 {
        owned(args[i])
    } else {
        String::new()
    }
}

/// The wire form of a boolean.
pub open spec fn bool_text(b: bool) -> Seq<char> {
    if b {
        "true"@
    } else {
        "false"@
    }
}

/// The wire form of a boolean.
pub fn write_bool(b: bool) -> (r: String)
    ensures
        r@ == bool_text(b),
{
    if b {
        owned("true")
    } else {
        owned("false")
    }
}

impl InfoView {
    /// The numbers are well-formed, and the pinout is a machine integer.
    pub open spec fn wf(self) -> bool {
        &&& self.main_voltage.wf()
        &&& self.partial_retraction.wf()
        &&& i64::MIN <= self.esp_pinout <= i64::MAX
    }

    /// The wire arguments.
    pub open spec fn args(self) -> Seq<Seq<char>> {
        seq![
            self.firmware_v,
            int_text(self.esp_pinout),
            float_text(self.main_voltage),
            self.color,
            self.serial_number,
            self.batch_number,
            self.build_date,
            self.scale_module,
            float_text(self.partial_retraction),
            bool_text(self.auto_purge_after_shot),
        ]
    }

    /// The socket.io representation.
    pub open spec fn sio(self) -> JsonView {
        JsonView::Object(
            seq![
                ("firmware_version"@, JsonView::Text(self.firmware_v)),
                ("esp_pinout"@, JsonView::Integer(self.esp_pinout)),
                ("main_voltage"@, json_float(self.main_voltage)),
                ("color"@, JsonView::Text(self.color)),
                ("serial_number"@, JsonView::Text(self.serial_number)),
                ("batch_number"@, JsonView::Text(self.batch_number)),
                ("build_date"@, JsonView::Text(self.build_date)),
                ("scale_module"@, JsonView::Text(self.scale_module)),
                ("partial_retraction"@, json_float(self.partial_retraction)),
                ("auto_purge_after_shot"@, JsonView::Bool(self.auto_purge_after_shot)),
            ],
        )
    }
}

/// The information of a machine that has not reported yet.
pub open spec fn default_info() -> InfoView {
    InfoView {
        firmware_v: "0.0.0"@,
        esp_pinout: 0,
        main_voltage: zero_view(),
        color: Seq::<char>::empty(),
        serial_number: Seq::<char>::empty(),
        batch_number: Seq::<char>::empty(),
        build_date: Seq::<char>::empty(),
        scale_module: Seq::<char>::empty(),
        partial_retraction: plain("45"@),
        auto_purge_after_shot: false,
    }
}

/// The retraction of machines that do not report one.
fn default_retraction() -> (r: Decimal)
    ensures
        r@ == plain("45"@),
        r@.wf(),
{
    proof {
        reveal_strlit("45");
        lemma_plain_number("45"@, Seq::<char>::empty());
    }
    plain_decimal("45")
}

impl EspInfo {
    /// Parses the arguments that follow the `ESPInfo,` prefix; extra
    /// arguments are ignored.
    #[verifier::rlimit(40)]
    pub fn from_args(args: &[&str]) -> (r: Option<Self>)
        ensures
            opt_info(r) == info_message(texts(args@)),
            r matches Some(m) ==> m@.wf(),
    {
        if args.len() < 3 {
            return None;
        }
        let esp_pinout: i64 = match py_int(args[1]) {
            Some(v) => v,
            None => 0,
        };
        let main_voltage = match py_float(args[2]) {
            Some(v) => v,
            None => return None,
        };
        let partial_retraction = if args.len() >= 9 {
            match py_float(args[8]) {
                Some(v) => v,
                None => return None,
            }
        } else {
            default_retraction()
        };
        let auto_purge_after_shot = if args.len() >= 10 {
            let flag = lowercase(args[9]);
            same_text(flag.as_str(), "true")
        } else {
            false
        };
        Some(
            EspInfo {
                firmware_v: owned(args[0]),
                esp_pinout,
                main_voltage,
                color: identity_field(args, 3),
                serial_number: identity_field(args, 4),
                batch_number: identity_field(args, 5),
                build_date: identity_field(args, 6),
                scale_module: identity_field(args, 7),
                partial_retraction,
                auto_purge_after_shot,
            },
        )
    }

    /// The wire arguments that `from_args` reads.
    #[verifier::rlimit(40)]
    pub fn to_args(&self) -> (r: Vec<String>)
        ensures
            owned_texts(r@) == self@.args(),
    {
        let mut out: Vec<String> = Vec::new();
        out.push(self.firmware_v.clone());
        out.push(write_int(self.esp_pinout));
        out.push(format_py_float(&self.main_voltage));
        out.push(self.color.clone());
        out.push(self.serial_number.clone());
        out.push(self.batch_number.clone());
        out.push(self.build_date.clone());
        out.push(self.scale_module.clone());
        out.push(format_py_float(&self.partial_retraction));
        out.push(write_bool(self.auto_purge_after_shot));
        assert(owned_texts(out@) =~= self@.args());
        out
    }

    /// The socket.io representation.
    pub fn to_sio(&self) -> (r: Json)
        ensures
            r.tree() == self@.sio(),
    {
        let mut m = Members::new();
        m.add("firmware_version", Json::string(self.firmware_v.as_str()));
        m.add("esp_pinout", Json::Integer(self.esp_pinout));
        m.add("main_voltage", Json::float(&self.main_voltage));
        m.add("color", Json::string(self.color.as_str()));
        m.add("serial_number", Json::string(self.serial_number.as_str()));
        m.add("batch_number", Json::string(self.batch_number.as_str()));
        m.add("build_date", Json::string(self.build_date.as_str()));
        m.add("scale_module", Json::string(self.scale_module.as_str()));
        m.add("partial_retraction", Json::float(&self.partial_retraction));
        m.add("auto_purge_after_shot", Json::Bool(self.auto_purge_after_shot));
        assert(m@ =~= self@.sio()->Object_0);
        m.build()
    }
}

impl Default for EspInfo {
    fn default() -> (r: Self)
        ensures
            r@ == default_info(),
            r@.wf(),
    {
        EspInfo {
            firmware_v: owned("0.0.0"),
            esp_pinout: 0,
            main_voltage: zero(),
            color: String::new(),
            serial_number: String::new(),
            batch_number: String::new(),
            build_date: String::new(),
            scale_module: String::new(),
            partial_retraction: default_retraction(),
            auto_purge_after_shot: false,
        }
    }
}

}
