//! What is written to the wire is read back: numbers, percent escapes and
//! whole argument lists.

use crate::canonical::{lemma_plain_number, lemma_zero_fraction, pointed};
use crate::decimal::{
    exponent_digits, has_point, is_exponent, is_finite_literal, is_float_literal, lemma_digit_run,
    lemma_literal_parts, literal_overflows, mantissa_end, plain, whole_len, zero_view,
    DecimalView,
};
use crate::digits::{all_digits, int_text, is_digit, lemma_nat_text, nat_text};
use crate::emulator::{
    active_kind, child, idle_lines, idle_sensors, idle_shot, line_of, sample_sensors, sample_shot,
};
use crate::encoding::{hex_byte, lemma_encode_concat};
use crate::esp_info::{bool_text, default_info, info_message, InfoView};
use crate::json::JsonView;
use crate::letters::{ascii_lower, lower};
use crate::message::{
    law_joined_lines_parse, lemma_prefix, lemma_prefix_kinds, line_kind, line_message, payload,
    prefix_kind, LineKind, MessageView,
};
use crate::pynum::{
    float_text, grouping_ok, has_minus, leads_escape, nan_float_value, percent_decoded, py_float_text,
    py_float_value, py_int_value, safe_float_value, unquoted, unsigned, without, PyFloatView,
};
use crate::sensor::{reading, sensor_message, SensorView};
use crate::shortest::float_form;
use crate::shot::{kind_arg, kind_field, profile_state, shot_message, ShotView};
use crate::text::{
    join, lemma_join_head, lemma_trim_back_all, lemma_trimmed_fixed, trim_front, trimmed, CharSet,
};
use vstd::prelude::*;
use vstd::utf8::{
    char_u32_cast, codepoint_width_1, decode_first_scalar, encode_scalar, encode_utf8,
    encode_utf8_decode_utf8, encode_utf8_first_scalar, encode_utf8_valid_utf8, is_ascii_chars,
    is_ascii_chars_encode_utf8, length_of_first_scalar,
};

verus! {

// ---------------------------------------------------------------------------
// Numbers
// ---------------------------------------------------------------------------

/// The characters of a literal.
spec fn is_literal_char(c: char) -> bool {
    is_digit(c) || c == '.' || c == 'e' || c == 'E' || c == '+' || c == '-'
}

/// What a literal is made of, and how it starts and ends.
proof fn lemma_literal_chars(s: Seq<char>)
    requires
        is_float_literal(s),
    ensures
        s.len() > 0,
        is_digit(s[0]) || s[0] == '.',
        is_digit(s.last()) || s.last() == '.',
        forall|i: int| 0 <= i < s.len() ==> is_literal_char(#[trigger] s[i]),
{
    lemma_literal_parts(s);
    lemma_digit_run(s, 0);
    if has_point(s) {
        lemma_digit_run(s, whole_len(s) + 1);
    }
    let end = mantissa_end(s);
    let tail = s.skip(end);
    assert forall|i: int| 0 <= i < s.len() implies is_literal_char(#[trigger] s[i]) by {
        if i >= end {
            assert(is_exponent(tail));
            assert(tail[i - end] == s[i]);
            let digits = exponent_digits(tail);
            let lead = tail.len() - digits.len();
            if i - end >= lead {
                assert(digits[i - end - lead] == s[i]);
                assert(is_digit(digits[i - end - lead]));
            }
        }
    }
    if end < s.len() {
        assert(is_exponent(tail));
        let digits = exponent_digits(tail);
        assert(is_digit(digits[digits.len() - 1]));
        assert(digits[digits.len() - 1] == s.last());
    }
}

/// A text without `c` is not changed when `c` is left out.
proof fn lemma_without_none(s: Seq<char>, c: char)
    requires
        forall|i: int| 0 <= i < s.len() ==> #[trigger] s[i] != c,
    ensures
        without(s, c) == s,
    decreases s.len(),
{
    if s.len() > 0 {
        assert(s[s.len() - 1] != c);
        assert forall|i: int| 0 <= i < s.drop_last().len() implies #[trigger] s.drop_last()[i]
            != c by {
            assert(s.drop_last()[i] == s[i]);
        }
        lemma_without_none(s.drop_last(), c);
        assert(s.drop_last().push(s.last()) =~= s);
    }
}

/// The literal that the text of a finite reading shows: digits alone get a
/// fraction of zero.
spec fn shown_literal(literal: Seq<char>) -> Seq<char> {
    if literal.contains('.') {
        literal
    } else {
        literal + ".0"@
    }
}

/// What the text of a finite reading is made of.
proof fn lemma_shown_literal(negative: bool, literal: Seq<char>)
    requires
        finite(negative, literal).wf(),
    ensures
        float_text(finite(negative, literal)) == sign_text(negative) + shown_literal(literal),
        is_float_literal(shown_literal(literal)),
        !literal_overflows(shown_literal(literal)),
        float_form(shown_literal(literal)) == literal,
{
    reveal(is_finite_literal);
    reveal_strlit(".0");
    assert(".0"@ =~= seq!['.', '0']);
    if !literal.contains('.') {
        lemma_zero_fraction(literal);
        assert(sign_text(negative) + literal + ".0"@ =~= sign_text(negative) + (literal + ".0"@));
    }
}

/// The finite reading of a literal.
spec fn finite(negative: bool, literal: Seq<char>) -> DecimalView {
    DecimalView::Finite { negative, literal }
}

/// A minus sign or nothing.
spec fn sign_text(negative: bool) -> Seq<char> {
    if negative {
        seq!['-']
    } else {
        Seq::<char>::empty()
    }
}

/// A signed literal is read as its number.
proof fn lemma_signed_literal(negative: bool, literal: Seq<char>)
    requires
        is_float_literal(literal),
        !literal_overflows(literal),
    ensures
        py_float_value(sign_text(negative) + literal) == Some(
            finite(negative, float_form(literal)),
        ),
{
    let text = sign_text(negative) + literal;
    reveal(py_float_value);
    lemma_literal_chars(literal);
    assert(text[0] == if negative {
        '-'
    } else {
        literal[0]
    });
    assert(text.last() == literal.last());
    lemma_trimmed_fixed(text, CharSet::WhiteSpace);
    assert(has_minus(text) == negative);
    assert(unsigned(text) =~= literal);
    reveal_strlit("inf");
    reveal_strlit("infinity");
    reveal_strlit("nan");
    assert(ascii_lower(literal)[0] == literal[0]);
    assert("inf"@[0] == 'i' && "infinity"@[0] == 'i' && "nan"@[0] == 'n');
    assert forall|i: int| 0 <= i < literal.len() implies #[trigger] literal[i] != '_' by {
        assert(is_literal_char(literal[i]));
    }
    lemma_without_none(literal, '_');
    assert(grouping_ok(literal));
}

/// The text of a reading is read back as this reading.
pub proof fn law_numbers_are_read_back(v: DecimalView)
    requires
        v.wf(),
    ensures
        py_float_value(float_text(v)) == Some(v),
        v.is_finite() ==> safe_float_value(float_text(v)) == Some(v),
{
    match v {
        DecimalView::Finite { negative, literal } => {
            lemma_shown_literal(negative, literal);
            lemma_signed_literal(negative, shown_literal(literal));
        },
        DecimalView::Infinite { negative } => {
            reveal(py_float_value);
            reveal_strlit("inf");
            reveal_strlit("-inf");
            lemma_trimmed_fixed("inf"@, CharSet::WhiteSpace);
            lemma_trimmed_fixed("-inf"@, CharSet::WhiteSpace);
            assert(unsigned("-inf"@) =~= "inf"@);
            assert(ascii_lower("inf"@) =~= "inf"@);
        },
        DecimalView::NotANumber => {
            reveal(py_float_value);
            reveal_strlit("nan");
            reveal_strlit("inf");
            reveal_strlit("infinity");
            lemma_trimmed_fixed("nan"@, CharSet::WhiteSpace);
            assert(ascii_lower("nan"@) =~= "nan"@);
            assert("nan"@.len() == 3 && "nan"@[0] == 'n');
            assert("inf"@[0] == 'i');
            assert("infinity"@.len() == 8);
        },
    }
}

/// The text of a reading that may be the string `"NaN"` is read back.
pub proof fn law_readings_are_read_back(v: PyFloatView)
    requires
        v.wf(),
    ensures
        nan_float_value(py_float_text(v)) == v,
{
    match v {
        PyFloatView::Num(d) => {
            law_numbers_are_read_back(d);
        },
        PyFloatView::NanString => {
            reveal(py_float_value);
            reveal_strlit("NaN");
            reveal_strlit("nan");
            reveal_strlit("inf");
            reveal_strlit("infinity");
            lemma_trimmed_fixed("NaN"@, CharSet::WhiteSpace);
            assert(ascii_lower("NaN"@) =~= "nan"@);
            assert("nan"@.len() == 3 && "nan"@[0] == 'n');
            assert("inf"@[0] == 'i');
            assert("infinity"@.len() == 8);
        },
    }
}

/// The text of an integer is read back.
pub proof fn law_integers_are_read_back(v: int)
    requires
        i64::MIN <= v <= i64::MAX,
    ensures
        py_int_value(int_text(v)) == Some(v),
{
    let magnitude: nat = if v < 0 {
        (-v) as nat
    } else {
        v as nat
    };
    let digits = nat_text(magnitude);
    let text = int_text(v);
    lemma_nat_text(magnitude);
    assert(is_digit(digits[0]) && is_digit(digits[digits.len() - 1]));
    assert(text.last() == digits.last());
    lemma_trimmed_fixed(text, CharSet::WhiteSpace);
    assert(unsigned(text) =~= digits);
    assert forall|i: int| 0 <= i < digits.len() implies #[trigger] digits[i] != '_' by {
        assert(is_digit(digits[i]));
    }
    lemma_without_none(digits, '_');
    assert(grouping_ok(digits));
}

// ---------------------------------------------------------------------------
// Percent escapes
// ---------------------------------------------------------------------------

/// The byte of a percent sign stands only where the text has one.
proof fn lemma_no_percent_byte(s: Seq<char>)
    requires
        !s.contains('%'),
    ensures
        forall|i: int| 0 <= i < encode_utf8(s).len() ==> #[trigger] encode_utf8(s)[i] != 0x25,
    decreases s.len(),
{
    if s.len() > 0 {
        let bytes = encode_utf8(s);
        let rest = s.drop_first();
        assert forall|i: int| 0 <= i < rest.len() implies #[trigger] rest[i] != '%' by {
            assert(rest[i] == s[i + 1]);
            assert(s.contains(s[i + 1]));
        }
        lemma_no_percent_byte(rest);
        encode_utf8_first_scalar(s);
        let n = length_of_first_scalar(bytes);
        let first = encode_scalar(s[0] as u32);
        assert(bytes =~= first + encode_utf8(rest));
        assert(first.len() == n);
        assert(s.contains(s[0]));
        if bytes[0] == 0x25 {
            let b = bytes[0];
            assert((b & 0x7f) == 0x25u8) by (bit_vector)
                requires
                    b == 0x25u8,
            ;
            assert(decode_first_scalar(bytes) == codepoint_width_1(b));
            char_u32_cast(s[0], 0x25u32);
            assert(s[0] == '%');
        }
        assert forall|i: int| 0 <= i < bytes.len() implies #[trigger] bytes[i] != 0x25 by {
            if i >= n {
                assert(bytes[i] == encode_utf8(rest)[i - n]);
            }
        }
    }
}

/// Bytes without a percent sign are not changed.
proof fn lemma_nothing_to_decode(bytes: Seq<u8>)
    requires
        forall|i: int| 0 <= i < bytes.len() ==> #[trigger] bytes[i] != 0x25,
    ensures
        percent_decoded(bytes) == bytes,
    decreases bytes.len(),
{
    if bytes.len() > 0 {
        assert(bytes[0] != 0x25);
        let rest = bytes.skip(1);
        assert forall|i: int| 0 <= i < rest.len() implies #[trigger] rest[i] != 0x25 by {
            assert(rest[i] == bytes[i + 1]);
        }
        lemma_nothing_to_decode(rest);
        assert(seq![bytes[0]] + rest =~= bytes);
    }
}

/// A text without percent signs is not changed by decoding.
pub proof fn law_plain_text_is_not_decoded(s: Seq<char>)
    requires
        !s.contains('%'),
    ensures
        unquoted(s) == s,
{
    lemma_no_percent_byte(s);
    lemma_nothing_to_decode(encode_utf8(s));
    encode_utf8_valid_utf8(s);
    encode_utf8_decode_utf8(s);
}

/// Two hexadecimal digits, of either case, that denote a byte.
pub open spec fn is_hex_pair(hi: char, lo: char, byte: u8) -> bool {
    is_ascii_chars(seq![hi, lo]) && hex_byte(hi as u8, lo as u8) == Some(byte)
}

/// `q` is made of percent escapes, one for each of the bytes.
pub open spec fn is_escaped(q: Seq<char>, bytes: Seq<u8>) -> bool
    decreases bytes.len(),
{
    if bytes.len() == 0 {
        q.len() == 0
    } else {
        q.len() >= 3 && q[0] == '%' && is_hex_pair(q[1], q[2], bytes[0]) && is_escaped(
            q.skip(3),
            bytes.skip(1),
        )
    }
}

/// `q` writes the character `c`: as it is where it is no percent sign, or as
/// the percent escapes of its UTF-8 bytes.
pub open spec fn writes_char(q: Seq<char>, c: char) -> bool {
    ||| q == seq![c] && c != '%'
    ||| is_escaped(q, encode_utf8(seq![c]))
}

/// The pieces one behind the other.
pub open spec fn together(pieces: Seq<Seq<char>>) -> Seq<char>
    decreases pieces.len(),
{
    if pieces.len() == 0 {
        Seq::<char>::empty()
    } else {
        pieces[0] + together(pieces.skip(1))
    }
}

/// Bytes without a percent sign in front of others are kept.
proof fn lemma_plain_front(front: Seq<u8>, rest: Seq<u8>)
    requires
        forall|i: int| 0 <= i < front.len() ==> #[trigger] front[i] != 0x25,
    ensures
        percent_decoded(front + rest) == front + percent_decoded(rest),
    decreases front.len(),
{
    let all = front + rest;
    if front.len() == 0 {
        assert(all =~= rest);
        assert(front + percent_decoded(rest) =~= percent_decoded(rest));
    } else {
        let tail = front.skip(1);
        assert(all[0] == front[0] && front[0] != 0x25);
        assert(all.skip(1) =~= tail + rest);
        assert forall|i: int| 0 <= i < tail.len() implies #[trigger] tail[i] != 0x25 by {
            assert(tail[i] == front[i + 1]);
        }
        lemma_plain_front(tail, rest);
        assert(seq![all[0]] + (tail + percent_decoded(rest)) =~= front + percent_decoded(rest));
    }
}

/// Escapes in front of other bytes are decoded.
proof fn lemma_escaped_front(q: Seq<char>, bytes: Seq<u8>, rest: Seq<u8>)
    requires
        is_escaped(q, bytes),
    ensures
        percent_decoded(encode_utf8(q) + rest) == bytes + percent_decoded(rest),
    decreases bytes.len(),
{
    let all = encode_utf8(q) + rest;
    if bytes.len() == 0 {
        assert(q =~= Seq::<char>::empty());
        assert(encode_utf8(q) =~= Seq::<u8>::empty());
        assert(all =~= rest);
        assert(bytes + percent_decoded(rest) =~= percent_decoded(rest));
    } else {
        let head = q.take(3);
        let tail = q.skip(3);
        assert(q =~= head + tail);
        lemma_encode_concat(head, tail);
        assert(head[0] == q[0] && head[1] == q[1] && head[2] == q[2]);
        assert forall|i: int| 0 <= i < head.len() implies '\0' <= #[trigger] head[i]
            <= '\u{7f}' by {
            assert(head.len() == 3);
            assert(is_hex_pair(q[1], q[2], bytes[0]));
            assert(head[i] == if i == 0 { '%' } else { seq![q[1], q[2]][i - 1] });
        }
        is_ascii_chars_encode_utf8(head);
        let lead = encode_utf8(head);
        assert(lead[0] == 0x25 && lead[1] == q[1] as u8 && lead[2] == q[2] as u8);
        assert(all =~= lead + (encode_utf8(tail) + rest));
        assert(all[0] == lead[0] && all[1] == lead[1] && all[2] == lead[2]);
        assert(leads_escape(all));
        assert(all.skip(3) =~= encode_utf8(tail) + rest);
        lemma_escaped_front(tail, bytes.skip(1), rest);
        assert(seq![bytes[0]] + (bytes.skip(1) + percent_decoded(rest)) =~= bytes
            + percent_decoded(rest));
    }
}

/// The bytes of a text whose characters are written as they are or as escapes
/// are decoded.
proof fn lemma_pieces_decode(pieces: Seq<Seq<char>>, s: Seq<char>)
    requires
        pieces.len() == s.len(),
        forall|i: int| 0 <= i < s.len() ==> writes_char(#[trigger] pieces[i], s[i]),
    ensures
        percent_decoded(encode_utf8(together(pieces))) == encode_utf8(s),
    decreases s.len(),
{
    if s.len() == 0 {
        assert(s =~= Seq::<char>::empty());
        assert(encode_utf8(s) =~= Seq::<u8>::empty());
        assert(encode_utf8(together(pieces)) =~= Seq::<u8>::empty());
    } else {
        let c = s[0];
        let later = pieces.skip(1);
        let tail = s.skip(1);
        assert forall|i: int| 0 <= i < tail.len() implies writes_char(
            #[trigger] later[i],
            tail[i],
        ) by {
            assert(later[i] == pieces[i + 1]);
        }
        lemma_pieces_decode(later, tail);
        lemma_encode_concat(pieces[0], together(later));
        lemma_encode_concat(seq![c], tail);
        assert(s =~= seq![c] + tail);
        let rest = encode_utf8(together(later));
        assert(writes_char(pieces[0], c));
        if pieces[0] == seq![c] && c != '%' {
            assert(!seq![c].contains('%'));
            lemma_no_percent_byte(seq![c]);
            lemma_plain_front(encode_utf8(seq![c]), rest);
        } else {
            lemma_escaped_front(pieces[0], encode_utf8(seq![c]), rest);
        }
    }
}

/// A text whose percent signs, and any further characters, are written as
/// percent escapes, with hexadecimal digits of either case, is read back.
pub proof fn law_escaped_text_is_read_back(pieces: Seq<Seq<char>>, s: Seq<char>)
    requires
        pieces.len() == s.len(),
        forall|i: int| 0 <= i < s.len() ==> writes_char(#[trigger] pieces[i], s[i]),
    ensures
        unquoted(together(pieces)) == s,
{
    lemma_pieces_decode(pieces, s);
    encode_utf8_valid_utf8(s);
    encode_utf8_decode_utf8(s);
}

// ---------------------------------------------------------------------------
// Messages
// ---------------------------------------------------------------------------

/// The text of a boolean tells which one it is.
proof fn lemma_bool_text(b: bool)
    ensures
        lower(bool_text(b)) == "true"@ <==> b,
        (bool_text(b) == "true"@) == b,
        trimmed(bool_text(b), CharSet::LineEnds) == bool_text(b),
{
    reveal_strlit("true");
    reveal_strlit("false");
    assert(is_ascii_chars("true"@) && is_ascii_chars("false"@));
    assert(ascii_lower("true"@) =~= "true"@);
    assert("true"@.len() == 4 && "false"@.len() == 5);
    lemma_trimmed_fixed("true"@, CharSet::LineEnds);
    lemma_trimmed_fixed("false"@, CharSet::LineEnds);
}

/// The wire arguments of machine information are read back as they were.
pub proof fn law_info_is_read_back(v: InfoView)
    requires
        v.wf(),
    ensures
        info_message(v.args()) == Some(v),
{
    law_integers_are_read_back(v.esp_pinout);
    law_numbers_are_read_back(v.main_voltage);
    law_numbers_are_read_back(v.partial_retraction);
    lemma_bool_text(v.auto_purge_after_shot);
}

/// The wire arguments of sensor readings are read back as they were.
#[verifier::rlimit(40)]
pub proof fn law_sensors_are_read_back(v: SensorView)
    requires
        v.wf(),
    ensures
        sensor_message(v.args()) == Some(v),
{
    let args = v.args();
    let values = v.readings();
    assert forall|i: int| 0 <= i < 20 implies safe_float_value(#[trigger] args[i]) == Some(
        values[i],
    ) by {
        assert(args[i] == float_text(values[i]));
        law_numbers_are_read_back(values[i]);
    }
    law_readings_are_read_back(v.motor_thermistor);
    law_readings_are_read_back(v.weight_prediction);
    lemma_bool_text(v.water_status);
    assert(Seq::new(20, |i: int| reading(args, i)) =~= values);
}

/// The text of a finite reading has no line ends around it.
proof fn lemma_number_has_no_line_ends(v: DecimalView)
    requires
        v.wf(),
        v.is_finite(),
    ensures
        trimmed(float_text(v), CharSet::LineEnds) == float_text(v),
{
    if let DecimalView::Finite { negative, literal } = v {
        lemma_shown_literal(negative, literal);
        let l = shown_literal(literal);
        lemma_literal_chars(l);
        let text = float_text(v);
        assert(text.last() == l.last());
        assert(text[0] == if negative {
            '-'
        } else {
            l[0]
        });
        lemma_trimmed_fixed(text, CharSet::LineEnds);
    }
}

/// A text that reading leaves as it is: no line ends around it and nothing to
/// decode.
pub open spec fn is_wire_text(t: Option<Seq<char>>) -> bool {
    t matches Some(s) && unquoted(trimmed(s, CharSet::LineEnds)) == s
}

/// A controller kind that reading leaves as it is.
pub open spec fn is_wire_kind(kind: Option<Seq<char>>) -> bool {
    kind matches Some(k) ==> k != "none"@ && trimmed(k, CharSet::LineEnds) == k
}

/// A controller kind is read back.
proof fn lemma_kind_is_read_back(kind: Option<Seq<char>>)
    requires
        is_wire_kind(kind),
    ensures
        kind_field(kind_arg(kind)) == kind,
{
    reveal_strlit("none");
    lemma_trimmed_fixed("none"@, CharSet::LineEnds);
}

/// The wire arguments of a datapoint are read back as they were, where it is
/// one as a line gives it: not stamped, in the state of its profile, and with
/// texts that reading leaves as they are.
#[verifier::rlimit(40)]
pub proof fn law_datapoints_are_read_back(v: ShotView)
    requires
        v.wf(),
        is_wire_text(v.status),
        is_wire_text(v.profile),
        is_wire_kind(v.main_controller_kind),
        is_wire_kind(v.aux_controller_kind),
        v.state == profile_state(v.profile),
        v.time == -1,
        v.profile_time == -1,
        !v.is_extracting,
    ensures
        shot_message(v.args()) == Some(v),
{
    law_readings_are_read_back(v.pressure);
    law_readings_are_read_back(v.flow);
    law_readings_are_read_back(v.weight);
    law_readings_are_read_back(v.temperature);
    law_readings_are_read_back(v.gravimetric_flow);
    law_numbers_are_read_back(v.main_setpoint);
    law_numbers_are_read_back(v.aux_setpoint);
    lemma_number_has_no_line_ends(v.main_setpoint);
    lemma_number_has_no_line_ends(v.aux_setpoint);
    lemma_kind_is_read_back(v.main_controller_kind);
    lemma_kind_is_read_back(v.aux_controller_kind);
    lemma_bool_text(v.is_aux_controller_active);
    reveal_strlit("S");
    reveal_strlit("U");
    lemma_trimmed_fixed("S"@, CharSet::LineEnds);
    lemma_trimmed_fixed("U"@, CharSet::LineEnds);
    assert("S"@[0] == 'S' && "U"@[0] == 'U');
}

// ---------------------------------------------------------------------------
// Lines
// ---------------------------------------------------------------------------

/// A line that is written as a prefix, a comma, and arguments with commas
/// between them is parsed as these arguments of its family, whatever line ends
/// follow.
pub proof fn law_written_lines_are_parsed(
    prefix: Seq<char>,
    args: Seq<Seq<char>>,
    ends: Seq<char>,
)
    requires
        prefix_kind(prefix) != LineKind::Unrecognized,
        args.len() >= 1,
        forall|i: int| 0 <= i < args.len() ==> !(#[trigger] args[i]).contains(','),
        args.last().len() > 0,
        !CharSet::LineEnds.holds(args.last().last()),
        forall|i: int| 0 <= i < ends.len() ==> CharSet::LineEnds.holds(#[trigger] ends[i]),
    ensures
        line_kind(prefix.push(',') + join(args, ',') + ends) == prefix_kind(prefix),
        line_message(prefix.push(',') + join(args, ',') + ends) == payload(
            prefix_kind(prefix),
            args,
        ),
{
    let text = prefix.push(',') + join(args, ',');
    let raw = text + ends;
    lemma_join_head(prefix, args, ',');
    lemma_prefix(prefix);
    lemma_join_last(args);
    assert(raw[0] == prefix[0]);
    assert(text.last() == args.last().last());
    lemma_trim_back_all(text, ends, CharSet::LineEnds);
    assert(trim_front(raw, CharSet::LineEnds) == raw);
    law_joined_lines_parse(raw, prefix, args);
}

/// A joined text ends as its last part does.
proof fn lemma_join_last(parts: Seq<Seq<char>>)
    requires
        parts.len() >= 1,
        parts.last().len() > 0,
    ensures
        join(parts, ',').len() > 0,
        join(parts, ',').last() == parts.last().last(),
{
}

/// The text of a reading fits between commas and has no line end behind it.
proof fn lemma_number_text(v: DecimalView)
    requires
        v.wf(),
    ensures
        !float_text(v).contains(','),
        float_text(v).len() > 0,
        !CharSet::LineEnds.holds(float_text(v).last()),
{
    let text = float_text(v);
    match v {
        DecimalView::Finite { negative, literal } => {
            lemma_shown_literal(negative, literal);
            let l = shown_literal(literal);
            lemma_literal_chars(l);
            assert(text.last() == l.last());
            assert forall|i: int| 0 <= i < text.len() implies #[trigger] text[i] != ',' by {
                let skip: int = if negative {
                    1
                } else {
                    0
                };
                if i >= skip {
                    assert(text[i] == l[i - skip]);
                    assert(is_literal_char(l[i - skip]));
                }
            }
        },
        DecimalView::Infinite { negative } => {
            reveal_strlit("inf");
            reveal_strlit("-inf");
        },
        DecimalView::NotANumber => {
            reveal_strlit("nan");
        },
    }
}

/// See [`lemma_number_text`].
proof fn lemma_reading_text(v: PyFloatView)
    requires
        v.wf(),
    ensures
        !py_float_text(v).contains(','),
        py_float_text(v).len() > 0,
        !CharSet::LineEnds.holds(py_float_text(v).last()),
{
    match v {
        PyFloatView::Num(d) => {
            lemma_number_text(d);
        },
        PyFloatView::NanString => {
            reveal_strlit("NaN");
        },
    }
}

/// The short words of argument lists hold no comma.
proof fn lemma_words()
    ensures
        !"S"@.contains(','),
        !"U"@.contains(','),
        !"none"@.contains(','),
        !"true"@.contains(','),
        !"false"@.contains(','),
        "true"@.len() == 4 && "true"@[3] == 'e',
        "false"@.len() == 5 && "false"@[4] == 'e',
{
    reveal_strlit("S");
    reveal_strlit("U");
    reveal_strlit("none");
    reveal_strlit("true");
    reveal_strlit("false");
}

/// No comma in a text.
pub open spec fn fits_between_commas(t: Option<Seq<char>>) -> bool {
    t matches Some(s) ==> !s.contains(',')
}

/// A datapoint written as a line is parsed as it was, under the conditions of
/// [`law_datapoints_are_read_back`] and where no text holds a comma.
#[verifier::rlimit(40)]
pub proof fn law_datapoint_lines_are_read_back(v: ShotView, ends: Seq<char>)
    requires
        v.wf(),
        is_wire_text(v.status) && fits_between_commas(v.status),
        is_wire_text(v.profile) && fits_between_commas(v.profile),
        is_wire_kind(v.main_controller_kind) && fits_between_commas(v.main_controller_kind),
        is_wire_kind(v.aux_controller_kind) && fits_between_commas(v.aux_controller_kind),
        v.state == profile_state(v.profile),
        v.time == -1,
        v.profile_time == -1,
        !v.is_extracting,
        forall|i: int| 0 <= i < ends.len() ==> CharSet::LineEnds.holds(#[trigger] ends[i]),
    ensures
        line_message("Data,"@ + join(v.args(), ',') + ends) == Some(MessageView::Shot(v)),
{
    let args = v.args();
    law_datapoints_are_read_back(v);
    lemma_reading_text(v.pressure);
    lemma_reading_text(v.flow);
    lemma_reading_text(v.weight);
    lemma_reading_text(v.temperature);
    lemma_reading_text(v.gravimetric_flow);
    lemma_number_text(v.main_setpoint);
    lemma_number_text(v.aux_setpoint);
    lemma_words();
    lemma_prefix_kinds();
    reveal_strlit("Data");
    reveal_strlit("Data,");
    assert("Data,"@ =~= "Data"@.push(','));
    law_written_lines_are_parsed("Data"@, args, ends);
}

/// The wire arguments of sensor readings fit between commas.
proof fn lemma_sensor_fields(v: SensorView)
    requires
        v.wf(),
    ensures
        v.args().len() == 23,
        forall|i: int| 0 <= i < 23 ==> !(#[trigger] v.args()[i]).contains(','),
        v.args().last().len() > 0,
        !CharSet::LineEnds.holds(v.args().last().last()),
{
    let args = v.args();
    lemma_words();
    lemma_reading_text(v.motor_thermistor);
    lemma_reading_text(v.weight_prediction);
    assert forall|i: int| 0 <= i < 23 implies !(#[trigger] args[i]).contains(',') by {
        if i < 20 {
            assert(args[i] == float_text(v.readings()[i]));
            lemma_number_text(v.readings()[i]);
        }
    }
}

/// Sensor readings written as a line are parsed as they were.
#[verifier::rlimit(40)]
pub proof fn law_sensor_lines_are_read_back(v: SensorView, ends: Seq<char>)
    requires
        v.wf(),
        forall|i: int| 0 <= i < ends.len() ==> CharSet::LineEnds.holds(#[trigger] ends[i]),
    ensures
        line_message("Sensors,"@ + join(v.args(), ',') + ends) == Some(MessageView::Sensors(v)),
{
    let args = v.args();
    let line = "Sensors,"@ + join(args, ',') + ends;
    lemma_sensor_fields(v);
    lemma_prefix_kinds();
    reveal_strlit("Sensors");
    reveal_strlit("Sensors,");
    assert("Sensors,"@ =~= "Sensors"@.push(','));
    law_written_lines_are_parsed("Sensors"@, args, ends);
    lemma_sensor_payload(args, line);
    law_sensors_are_read_back(v);
}

/// Several arguments of a sensor line are a sensor message.
proof fn lemma_sensor_payload(args: Seq<Seq<char>>, raw: Seq<char>)
    requires
        args.len() == 23,
        line_message(raw) == payload(LineKind::Sensors, args),
    ensures
        sensor_message(args) matches Some(m) ==> line_message(raw) == Some(MessageView::Sensors(m)),
{
}

/// Machine information written as a line is parsed as it was, where no text
/// holds a comma.
#[verifier::rlimit(40)]
pub proof fn law_info_lines_are_read_back(v: InfoView, ends: Seq<char>)
    requires
        v.wf(),
        !v.firmware_v.contains(','),
        !v.color.contains(','),
        !v.serial_number.contains(','),
        !v.batch_number.contains(','),
        !v.build_date.contains(','),
        !v.scale_module.contains(','),
        forall|i: int| 0 <= i < ends.len() ==> CharSet::LineEnds.holds(#[trigger] ends[i]),
    ensures
        line_message("ESPInfo,"@ + join(v.args(), ',') + ends) == Some(MessageView::Info(v)),
{
    let args = v.args();
    law_info_is_read_back(v);
    lemma_words();
    lemma_number_text(v.main_voltage);
    lemma_number_text(v.partial_retraction);
    lemma_int_text(v.esp_pinout);
    lemma_prefix_kinds();
    reveal_strlit("ESPInfo");
    reveal_strlit("ESPInfo,");
    assert("ESPInfo,"@ =~= "ESPInfo"@.push(','));
    law_written_lines_are_parsed("ESPInfo"@, args, ends);
}

/// The text of an integer holds no comma.
proof fn lemma_int_text(v: int)
    ensures
        !int_text(v).contains(','),
{
    let magnitude: nat = if v < 0 {
        (-v) as nat
    } else {
        v as nat
    };
    let digits = nat_text(magnitude);
    let text = int_text(v);
    lemma_nat_text(magnitude);
    assert forall|i: int| 0 <= i < text.len() implies #[trigger] text[i] != ',' by {
        let skip: int = if v < 0 {
            1
        } else {
            0
        };
        if i >= skip {
            assert(text[i] == digits[i - skip]);
            assert(is_digit(digits[i - skip]));
        }
    }
}

// ---------------------------------------------------------------------------
// Played lines
// ---------------------------------------------------------------------------

/// The lines that play a recorded sample are read as its datapoint, in the
/// state of the profile, and as its sensors; where its numbers are
/// well-formed and reading leaves its texts as they are. Line ends may follow.
pub proof fn law_recorded_samples_are_read_back(
    sample: JsonView,
    profile: Seq<char>,
    ends: Seq<char>,
)
    requires
        forall|i: int| 0 <= i < ends.len() ==> CharSet::LineEnds.holds(#[trigger] ends[i]),
        sample_shot(sample, profile).wf(),
        sample_sensors(sample).wf(),
        is_wire_text(Some(profile)) && !profile.contains(','),
        is_wire_text(child(sample, "status"@).text()),
        fits_between_commas(child(sample, "status"@).text()),
        is_wire_kind(active_kind(sample)) && fits_between_commas(active_kind(sample)),
    ensures
        line_message(line_of("Data,"@, sample_shot(sample, profile).args()) + ends) == Some(
            MessageView::Shot(in_profile_state(sample_shot(sample, profile))),
        ),
        line_message(line_of("Sensors,"@, sample_sensors(sample).args()) + ends) == Some(
            MessageView::Sensors(sample_sensors(sample)),
        ),
{
    let v = in_profile_state(sample_shot(sample, profile));
    assert(v.args() =~= sample_shot(sample, profile).args());
    law_datapoint_lines_are_read_back(v, ends);
    law_sensor_lines_are_read_back(sample_sensors(sample), ends);
}

/// The datapoint with the state that its profile stands for.
pub open spec fn in_profile_state(v: ShotView) -> ShotView {
    ShotView { state: profile_state(v.profile), ..v }
}

/// A constant with digits before a point and digits behind it.
proof fn lemma_constant(text: Seq<char>, whole: Seq<char>, fraction: Seq<char>)
    requires
        text =~= pointed(whole, fraction),
        0 < whole.len(),
        whole.len() + fraction.len() <= 15,
        all_digits(whole),
        all_digits(fraction),
        whole[0] != '0' || whole.len() == 1,
        fraction.len() > 0 ==> fraction.last() != '0',
    ensures
        plain(text).wf(),
        plain(text).is_finite(),
{
    lemma_plain_number(whole, fraction);
}

/// Zero is well-formed.
proof fn lemma_zero_view()
    ensures
        zero_view().wf(),
        zero_view().is_finite(),
{
    reveal_strlit("0");
    lemma_constant("0"@, "0"@, Seq::<char>::empty());
}

/// The readings of the idle loop are well-formed.
proof fn lemma_idle_readings()
    ensures
        idle_shot().wf(),
        idle_sensors().wf(),
        default_info().wf(),
{
    let none = Seq::<char>::empty();
    reveal_strlit("23.2");
    reveal_strlit("85.11");
    reveal_strlit("86.27");
    reveal_strlit("68.73");
    reveal_strlit("69.02");
    reveal_strlit("67.75");
    reveal_strlit("65.44");
    reveal_strlit("67.74");
    reveal_strlit("29.96");
    reveal_strlit("32.78");
    reveal_strlit("74");
    reveal_strlit("15.3");
    reveal_strlit("0.62");
    reveal_strlit("306");
    reveal_strlit("14");
    reveal_strlit("45");
    lemma_zero_view();
    lemma_constant("23.2"@, seq!['2', '3'], seq!['2']);
    lemma_constant("85.11"@, seq!['8', '5'], seq!['1', '1']);
    lemma_constant("86.27"@, seq!['8', '6'], seq!['2', '7']);
    lemma_constant("68.73"@, seq!['6', '8'], seq!['7', '3']);
    lemma_constant("69.02"@, seq!['6', '9'], seq!['0', '2']);
    lemma_constant("67.75"@, seq!['6', '7'], seq!['7', '5']);
    lemma_constant("65.44"@, seq!['6', '5'], seq!['4', '4']);
    lemma_constant("67.74"@, seq!['6', '7'], seq!['7', '4']);
    lemma_constant("29.96"@, seq!['2', '9'], seq!['9', '6']);
    lemma_constant("32.78"@, seq!['3', '2'], seq!['7', '8']);
    lemma_constant("15.3"@, seq!['1', '5'], seq!['3']);
    lemma_constant("0.62"@, seq!['0'], seq!['6', '2']);
    lemma_constant("74"@, "74"@, none);
    lemma_constant("306"@, "306"@, none);
    lemma_constant("14"@, "14"@, none);
    lemma_constant("45"@, "45"@, none);
}

/// The lines of the idle loop are read as the datapoint, the sensors and the
/// information that they were written from, whatever line ends follow.
pub proof fn law_idle_lines_are_read_back(ends: Seq<char>)
    requires
        forall|i: int| 0 <= i < ends.len() ==> CharSet::LineEnds.holds(#[trigger] ends[i]),
    ensures
        line_message(idle_lines()[0] + ends) == Some(MessageView::Shot(idle_shot())),
        line_message(idle_lines()[1] + ends) == Some(MessageView::Sensors(idle_sensors())),
        line_message(idle_lines()[2] + ends) == Some(MessageView::Info(default_info())),
{
    lemma_idle_readings();
    reveal_strlit("idle");
    reveal_strlit("0.0.0");
    assert(!"idle"@.contains('%') && !"idle"@.contains(','));
    lemma_trimmed_fixed("idle"@, CharSet::LineEnds);
    law_plain_text_is_not_decoded("idle"@);
    law_datapoint_lines_are_read_back(idle_shot(), ends);
    law_sensor_lines_are_read_back(idle_sensors(), ends);
    law_info_lines_are_read_back(default_info(), ends);
}

}
