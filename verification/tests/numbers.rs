//! Numbers and text as CPython reads and shows them.

use met_core::decimal::Decimal;
use met_core::pynum::{
    format_py_float, py_float, py_int, safe_float, safe_float_with_nan, strip_crlf, unquote,
    PyFloat,
};

fn num(literal: &str) -> Decimal {
    Decimal::Finite {
        negative: false,
        literal: literal.to_string(),
    }
}

fn minus(literal: &str) -> Decimal {
    Decimal::Finite {
        negative: true,
        literal: literal.to_string(),
    }
}

/// The float that a reading rounds to.
fn to_f64(v: &Decimal) -> f64 {
    match v {
        Decimal::Finite { negative, literal } => {
            let magnitude: f64 = literal.parse().unwrap();
            if *negative {
                -magnitude
            } else {
                magnitude
            }
        }
        Decimal::Infinite { negative: false } => f64::INFINITY,
        Decimal::Infinite { negative: true } => f64::NEG_INFINITY,
        Decimal::NotANumber => f64::NAN,
    }
}

#[test]
fn floats_are_read_like_cpython_does() {
    assert_eq!(py_float("1.5"), Some(num("1.5")));
    assert_eq!(py_float("  1.5\t\n"), Some(num("1.5")));
    assert_eq!(py_float("+2"), Some(num("2")));
    assert_eq!(py_float("-.5"), Some(minus("0.5")));
    assert_eq!(py_float("5."), Some(num("5")));
    assert_eq!(py_float("1e3"), Some(num("1000")));
    assert_eq!(py_float("1E-3"), Some(num("0.001")));
    assert_eq!(py_float("1_000.25"), Some(num("1000.25")));
    assert_eq!(py_float("000230.5000"), Some(num("230.5")));
    assert_eq!(py_float("-0.0"), Some(minus("0")));
    assert_eq!(py_float("12.5e1"), Some(num("125")));
    assert_eq!(py_float("1200e-2"), Some(num("12")));
    assert_eq!(py_float("1e-500"), Some(num("0")));
    assert_eq!(py_float("\u{2003}7\u{3000}"), Some(num("7")));
}

#[test]
fn texts_that_are_no_floats_are_refused() {
    for text in [
        "", " ", "abc", "1.2.3", "1 2", "--5", "+-5", "-+inf", ".", "e5", "1e", "1e+", "_1",
        "1_", "1__0", "1_.5", "1._5", "0x10", "1,5", "\u{664}", "inf1", "na n", "1f",
    ] {
        assert_eq!(py_float(text), None, "{}", text);
    }
}

#[test]
fn spelled_out_values_are_read_in_any_case() {
    assert_eq!(py_float("inf"), Some(Decimal::Infinite { negative: false }));
    assert_eq!(
        py_float("+Infinity"),
        Some(Decimal::Infinite { negative: false })
    );
    assert_eq!(
        py_float("-INF"),
        Some(Decimal::Infinite { negative: true })
    );
    assert_eq!(py_float("NaN"), Some(Decimal::NotANumber));
    assert_eq!(py_float("-nan"), Some(Decimal::NotANumber));
}

#[test]
fn large_literals_become_infinite_exactly_where_floats_do() {
    // The largest finite double, and the midpoint to the next power of two.
    let cases = [
        "1.7976931348623157e308",
        "179769313486231580793728971405303415079934132710037826936173778980444968292764750946649017977587207096330286416692887910946555547851940402630657488671505820681908902000708383676273854845817711531764475730270069855571366959622842914819860834936475292719074168444365510704342711559699508093042880177904174497792",
        "179769313486231580793728971405303415079934132710037826936173778980444968292764750946649017977587207096330286416692887910946555547851940402630657488671505820681908902000708383676273854845817711531764475730270069855571366959622842914819860834936475292719074168444365510704342711559699508093042880177904174497791.999",
        "1.8e308",
        "1e309",
        "1e308",
        "0.00000001e316",
        "0.00000001e317",
        "0e999999999999",
        "1e-999999999999",
        "1e999999999999999999999999999999",
        "0.0e999999999999999999999999999999",
        "123456789e300",
        "99999999999999999999e288",
        "17976931348623158079e289",
        "17976931348623159e292",
    ];
    for text in cases {
        let expected: f64 = text.parse().unwrap();
        let got = py_float(text).unwrap();
        assert_eq!(
            matches!(got, Decimal::Infinite { negative: false }),
            expected.is_infinite(),
            "{}",
            text
        );
        assert_eq!(to_f64(&got), expected, "{}", text);
    }
    assert_eq!(
        py_float("-1e400"),
        Some(Decimal::Infinite { negative: true })
    );
}

#[test]
fn small_literals_become_zero_exactly_where_floats_do() {
    // Half of the smallest float lies between the second and the third.
    let long = format!("24703282292062327208{}e-343", "2".repeat(800));
    let cases = [
        "2e-324",
        "2.4703282292062327e-324",
        "2.4703282292062328e-324",
        "3e-324",
        "4.9e-324",
        "1e-323",
        "1e-322",
        "0.9e-323",
        "24703282292062327208e-343",
        "24703282292062327209e-343",
        long.as_str(),
        "1e-324",
        "9.99e-325",
        "1e-399",
        "1e-401",
        "1e-300",
        "0.000e-330",
    ];
    for text in cases {
        let expected: f64 = text.parse().unwrap();
        let got = py_float(text).unwrap();
        assert_eq!(got == num("0"), expected == 0.0, "{}", text);
        assert_eq!(to_f64(&got), expected, "{}", text);
    }
}

#[test]
fn safe_floats_put_zero_for_what_is_not_finite() {
    assert_eq!(safe_float("nan"), Some(num("0")));
    assert_eq!(safe_float("-inf"), Some(num("0")));
    assert_eq!(safe_float("1e999"), Some(num("0")));
    assert_eq!(safe_float(" 3.25 "), Some(num("3.25")));
    assert_eq!(safe_float("x"), None);
}

#[test]
fn readings_keep_infinities_and_spell_out_nan() {
    assert_eq!(safe_float_with_nan("1.5"), PyFloat::Num(num("1.5")));
    assert_eq!(
        safe_float_with_nan("inf"),
        PyFloat::Num(Decimal::Infinite { negative: false })
    );
    assert_eq!(safe_float_with_nan("nan"), PyFloat::NanString);
    assert_eq!(safe_float_with_nan("garbage"), PyFloat::NanString);
    assert_eq!(safe_float_with_nan(""), PyFloat::NanString);
}

#[test]
fn integers_are_read_like_cpython_does() {
    assert_eq!(py_int("42"), Some(42));
    assert_eq!(py_int(" -7 "), Some(-7));
    assert_eq!(py_int("+1_000"), Some(1000));
    assert_eq!(py_int("007"), Some(7));
    assert_eq!(py_int("9223372036854775807"), Some(i64::MAX));
    assert_eq!(py_int("9223372036854775808"), None);
    assert_eq!(py_int("-9223372036854775808"), Some(i64::MIN));
    assert_eq!(py_int("-9223372036854775809"), None);
    assert_eq!(py_int("99999999999999999999999999"), None);
    for text in ["", "-", "+", "1.0", "1e3", "--1", "_1", "1_", "1__2", "0x1"] {
        assert_eq!(py_int(text), None, "{}", text);
    }
}

#[test]
fn floats_are_shown_with_a_point() {
    assert_eq!(format_py_float(&num("0")), "0.0");
    assert_eq!(format_py_float(&num("0.5")), "0.5");
    assert_eq!(format_py_float(&num("5")), "5.0");
    assert_eq!(format_py_float(&minus("5")), "-5.0");
    assert_eq!(
        format_py_float(&Decimal::Infinite { negative: true }),
        "-inf"
    );
    assert_eq!(
        format_py_float(&Decimal::Infinite { negative: false }),
        "inf"
    );
    assert_eq!(format_py_float(&Decimal::NotANumber), "nan");
    assert_eq!(PyFloat::NanString.to_py_string(), "NaN");
    assert_eq!(PyFloat::Num(num("3")).to_py_string(), "3.0");
}

#[test]
fn shown_floats_are_read_back_as_the_same_number() {
    for text in ["0.0", "5", "12.75", "1e300", "-3", "1e-400", "-.25", "7."] {
        let v = py_float(text).unwrap();
        assert_eq!(py_float(&format_py_float(&v)), Some(v), "{}", text);
    }
    for v in [
        Decimal::Infinite { negative: false },
        Decimal::Infinite { negative: true },
        Decimal::NotANumber,
    ] {
        assert_eq!(py_float(&format_py_float(&v)), Some(v));
    }
}

#[test]
fn floats_are_shown_as_floats_are_displayed() {
    for text in [
        "0", "-0", "1", "5.", ".25", "100", "1e3", "1e-3", "12.50", "0.1", "92.75", "1e16", "1e21",
        "123456789.125", "-3.5e-5", "1e300", "2.5e-300", "0.000", "00012",
    ] {
        let float: f64 = text.parse().unwrap();
        assert_eq!(format_py_float(&py_float(text).unwrap()), displayed(float));
    }
}

/// What a float shows, with a point.
fn displayed(float: f64) -> String {
    let text = format!("{}", float);
    if text.contains('.') {
        text
    } else {
        format!("{}.0", text)
    }
}

#[test]
fn long_literals_are_rounded_to_the_nearest_float() {
    for text in [
        "9007199254740993",
        "9007199254740992",
        "9007199254740993.0000000000000001",
        "0.1000000000000000055",
        "0.1000000000000000055511151231257827021181583404541015625",
        "0.30000000000000004",
        "0.29999999999999999",
        "123456789.123456789123456789",
        "18446744073709551615",
        "562949953421312.25",
        "562949953421312.75",
        "5.9604644775390625e-8",
        "4.9406564584124654e-324",
        "9.8813129168249309e-324",
        "2.2250738585072011e-308",
        "2.2250738585072014e-308",
        "1.7976931348623157081e308",
        "1.7976931348623158e308",
        "8.5e-311",
        "1e23",
        "9.999999999999999e22",
        "9007199254740991e-290",
        "5e-324",
        "1e301",
        "123456789012345678e290",
        "-1.00000000000000011102230246251565",
        "1.00000000000000011102230246251565404236316680908203125",
        "1.00000000000000033306690738754696212708950042724609375",
    ] {
        let float: f64 = text.parse().unwrap();
        let v = py_float(text).unwrap();
        assert_eq!(to_f64(&v), float, "{}", text);
        assert_eq!(format_py_float(&v), displayed(float), "{}", text);
        assert_eq!(py_float(&format_py_float(&v)), Some(v), "{}", text);
    }
    assert_eq!(py_float("9007199254740993"), Some(num("9007199254740992")));
    assert_eq!(py_float("562949953421312.25"), Some(num("562949953421312.3")));
}

#[test]
fn floats_of_any_bits_are_shown_as_they_are_displayed() {
    let mut bits: u64 = 0x9e37_79b9_7f4a_7c15;
    for i in 0..60 {
        bits = bits
            .wrapping_mul(6_364_136_223_846_793_005)
            .wrapping_add(1_442_695_040_888_963_407);
        let magnitude = match i % 3 {
            0 => (bits >> 1) % 0x7ff0_0000_0000_0000,
            1 => (bits >> 12) >> (i % 50),
            _ => 0x4000_0000_0000_0000 + (bits >> 7),
        };
        let float = f64::from_bits(magnitude);
        let text = format!("{:.60e}", float);
        assert_eq!(
            format_py_float(&py_float(&text).unwrap()),
            displayed(float),
            "{}",
            text
        );
    }
    for power in [1u64, 2, 3, 52, 53, 1022, 1023, 2045, 2046] {
        for near in [power << 52, (power << 52) - 1, (power << 52) + 1] {
            let float = f64::from_bits(near);
            let text = format!("{:e}", float);
            assert_eq!(
                format_py_float(&py_float(&text).unwrap()),
                displayed(float),
                "{}",
                text
            );
        }
    }
}

#[test]
fn literals_of_one_float_show_the_same() {
    for (one, other) in [
        ("0.1", "0.1000000000000000055"),
        ("9007199254740993", "9007199254740992"),
        ("5e-324", "4.9e-324"),
        ("1e23", "99999999999999991611392"),
        ("0.30000000000000004", "0.3000000000000000444089209850062616169452667236328125"),
    ] {
        assert_eq!(py_float(one), py_float(other), "{} {}", one, other);
    }
    assert_ne!(py_float("0.3"), py_float("0.30000000000000004"));
}

#[test]
fn fifteen_digits_are_kept() {
    for text in [
        "123456789012345",
        "0.123456789012345",
        "999999999999999",
        "9.99999999999999",
        "100000000000001",
        "1000000000000000000000",
    ] {
        assert_eq!(py_float(text), Some(num(text)));
    }
}

#[test]
fn canonical_literals_keep_the_number() {
    for text in [
        "0", "7", "007", "7.0", "0.7", "70e-1", "0.07e2", "700e-2", "1e-300", "9.99e200", "10",
        "10.010", "0.0000e5", "123.456e-7",
    ] {
        let float: f64 = text.parse().unwrap();
        let v = py_float(text).unwrap();
        assert_eq!(to_f64(&v), float, "{}", text);
        if let Decimal::Finite { literal, .. } = &v {
            assert_eq!(py_float(literal), Some(v.clone()));
        }
    }
    assert_eq!(py_float("7"), py_float("70e-1"));
    assert_eq!(py_float("7"), py_float("0.07e2"));
}

#[test]
fn line_ends_are_stripped_at_both_ends() {
    assert_eq!(strip_crlf("\r\nabc\r\n\n"), "abc");
    assert_eq!(strip_crlf("a\nb"), "a\nb");
    assert_eq!(strip_crlf(" x "), " x ");
    assert_eq!(strip_crlf("\n\r"), "");
    assert_eq!(strip_crlf(strip_crlf("\rx\n")), "x");
}

#[test]
fn percent_escapes_are_decoded() {
    assert_eq!(unquote("closing%20valve"), "closing valve");
    assert_eq!(unquote("caf%C3%A9"), "caf\u{e9}");
    assert_eq!(unquote("caf%c3%a9"), "caf\u{e9}");
    assert_eq!(unquote("100%"), "100%");
    assert_eq!(unquote("%4"), "%4");
    assert_eq!(unquote("%zz%41"), "%zzA");
    assert_eq!(unquote("%%41"), "%A");
    assert_eq!(unquote("%2541"), "%41");
    assert_eq!(unquote("%+1"), "%+1");
    assert_eq!(unquote("%FF"), "\u{fffd}");
    assert_eq!(unquote("a%E2%82"), "a\u{fffd}");
}

#[test]
fn escaped_text_is_read_back() {
    for s in ["100% caf\u{e9} \u{1f600};,", "%41", "", "plain"] {
        for upper in [false, true] {
            for every in [1, 2, 3] {
                let mut quoted = String::new();
                for (i, c) in s.chars().enumerate() {
                    if c == '%' || i % every == 0 {
                        for b in c.to_string().bytes() {
                            quoted.push_str(&if upper {
                                format!("%{:02X}", b)
                            } else {
                                format!("%{:02x}", b)
                            });
                        }
                    } else {
                        quoted.push(c);
                    }
                }
                assert_eq!(unquote(&quoted), s);
            }
        }
    }
}

#[test]
fn text_without_percent_signs_is_not_decoded() {
    for text in ["", "plain text", "caf\u{e9} \u{1f600}", "a+b"] {
        assert_eq!(unquote(text), text);
    }
}
