//! Number and text parsing with CPython semantics (`float()`, `int()`,
//! `urllib.parse.unquote`, `str.strip("\r\n")`).
//!
//! Non-ASCII digits and integers beyond `i64` are rejected here while CPython
//! accepts them; the firmware emits ASCII and small integers only.

use crate::canonical::lemma_zero;
use crate::decimal::{
    check_float_literal, is_finite_literal, is_float_literal, literal_overflows,
    plain, zero_view, Decimal, DecimalView,
};
use crate::digits::{all_digits, digits_value, is_digit};
use crate::encoding::{decode_lossy, hex_byte, lossy_text, read_hex_byte};
use crate::letters::{ascii_lower, ascii_lowercase_chars};
use crate::shortest::{float_form, float_literal, law_float_form_is_stable, lemma_zero_form};
use crate::text::{append_text, chars_of, owned, same_chars, trim_text, trimmed, CharSet};
use vstd::prelude::*;
use vstd::utf8::encode_utf8;

verus! {

// ---------------------------------------------------------------------------
// Signs and digit grouping
// ---------------------------------------------------------------------------

/// A leading minus sign.
pub open spec fn has_minus(s: Seq<char>) -> bool {
    s.len() > 0 && s[0] == '-'
}

/// `s` without one leading sign.
pub open spec fn unsigned(s: Seq<char>) -> Seq<char> {
    if s.len() > 0 && (s[0] == '-' || s[0] == '+') {
        s.skip(1)
    } else {
        s
    }
}

/// Whether a minus sign leads, and the text behind the sign.
pub fn split_sign(s: &str) -> (r: (bool, &str))
    ensures
        r.0 == has_minus(s@),
        r.1@ == unsigned(s@),
{
    let n: usize = s.unicode_len();
    if n > 0 && s.get_char(0) == '-' {
        (true, s.substring_char(1, n))
    } else if n > 0 && s.get_char(0) == '+' {
        (false, s.substring_char(1, n))
    } else {
        (false, s)
    }
}

/// Every underscore stands between two digits.
pub open spec fn grouping_ok(s: Seq<char>) -> bool {
    forall|i: int|
        0 <= i < s.len() && #[trigger] s[i] == '_' ==> 0 < i < s.len() - 1 && is_digit(s[i - 1])
            && is_digit(s[i + 1])
}

/// `s` without the character `c`.
pub open spec fn without(s: Seq<char>, c: char) -> Seq<char>
    decreases s.len(),
{
    if s.len() == 0 {
        s
    } else if s.last() == c {
        without(s.drop_last(), c)
    } else {
        without(s.drop_last(), c).push(s.last())
    }
}

/// The literal without its grouping underscores, where these stand between
/// digits only.
pub open spec fn ungrouped(s: Seq<char>) -> Option<Seq<char>> {
    if grouping_ok(s) {
        Some(without(s, '_'))
    } else {
        None
    }
}

fn digit_at(s: &Vec<char>, i: usize) -> (r: bool)
    ensures
        r == (i < s@.len() && is_digit(s@[i as int])),
{
    i < s.len() && '0' <= s[i] && s[i] <= '9'
}

/// The literal without its grouping underscores; CPython allows an
/// underscore in a numeric literal only between two digits.
pub fn strip_grouping_underscores(s: &str) -> (r: Option<Vec<char>>)
    ensures
        (match r {
            Some(v) => Some(v@),
            None => None,
        }) == ungrouped(s@),
{
    let chars = chars_of(s);
    let mut out: Vec<char> = Vec::new();
    let total: usize = chars.len();
    let mut i: usize = 0;
    assert(chars@.take(0) =~= Seq::<char>::empty());
    while i < total
        invariant
            total == chars@.len(),
            chars@ == s@,
            i <= total,
            out@ == without(s@.take(i as int), '_'),
            forall|j: int|
                0 <= j < i && #[trigger] s@[j] == '_' ==> 0 < j < s@.len() - 1 && is_digit(s@[j - 1])
                    && is_digit(s@[j + 1]),
        decreases total - i,
    {
        let c = chars[i];
        assert(s@.take(i + 1).drop_last() =~= s@.take(i as int));
        if c == '_' {
            if i == 0 || i == total - 1 || !digit_at(&chars, i - 1) || !digit_at(&chars, i + 1) {
                assert(s@[i as int] == '_');
                return None;
            }
        } else {
            out.push(c);
        }
        i = i + 1;
    }
    assert(s@.take(s@.len() as int) =~= s@);
    Some(out)
}

// ---------------------------------------------------------------------------
// Integers
// ---------------------------------------------------------------------------

/// What CPython's `int(s)` gives, where it fits into `i64`.
pub open spec fn py_int_value(s: Seq<char>) -> Option<int> {
    let t = trimmed(s, CharSet::WhiteSpace);
    match ungrouped(unsigned(t)) {
        Some(digits) => {
            let v = if has_minus(t) {
                -(digits_value(digits) as int)
            } else {
                digits_value(digits) as int
            };
            if digits.len() > 0 && all_digits(digits) && i64::MIN <= v <= i64::MAX {
                Some(v)
            } else {
                None
            }
        },
        None => None,
    }
}

/// The number that the digits denote, capped at `cap + 1`; nothing where a
/// character is no digit.
fn capped_digits(s: &Vec<char>, cap: u64) -> (r: Option<u64>)
    requires
        cap < 0x8000_0000_0000_0001,
    ensures
        r is Some <==> all_digits(s@),
        r matches Some(v) ==> v <= cap + 1 && (v <= cap ==> v == digits_value(s@)) && (v > cap
            ==> digits_value(s@) > cap),
{
    let mut v: u64 = 0;
    let mut i: usize = 0;
    assert(s@.take(0) =~= Seq::<char>::empty());
    while i < s.len()
        invariant
            i <= s@.len(),
            cap < 0x8000_0000_0000_0001,
            forall|j: int| 0 <= j < i ==> is_digit(#[trigger] s@[j]),
            v <= cap + 1,
            v <= cap ==> v == digits_value(s@.take(i as int)),
            v > cap ==> digits_value(s@.take(i as int)) > cap,
        decreases s@.len() - i,
    {
        if !digit_at(s, i) {
            return None;
        }
        assert(s@.take(i + 1).drop_last() =~= s@.take(i as int));
        let digit: u64 = (s[i] as u8 - 48) as u64;
        if v <= cap {
            let next: u128 = v as u128 * 10 + digit as u128;
            if next > cap as u128 {
                v = cap + 1;
            } else {
                v = next as u64;
            }
        }
        i = i + 1;
    }
    assert(s@.take(s@.len() as int) =~= s@);
    Some(v)
}

/// CPython's `int(s)` in base 10, bounded to `i64`: surrounding white space,
/// one sign and grouping underscores are allowed.
pub fn py_int(s: &str) -> (r: Option<i64>)
    ensures
        (match r {
            Some(v) => Some(v as int),
            None => None,
        }) == py_int_value(s@),
{
    let t = trim_text(s, CharSet::WhiteSpace);
    let (negative, body) = split_sign(t);
    let digits = match strip_grouping_underscores(body) {
        Some(digits) => digits,
        None => return None,
    };
    if digits.len() == 0 {
        return None;
    }
    let cap: u64 = if negative {
        0x8000_0000_0000_0000
    } else {
        0x7fff_ffff_ffff_ffff
    };
    match capped_digits(&digits, cap) {
        Some(v) => {
            if v > cap {
                None
            } else if v == 0x8000_0000_0000_0000 {
                Some(i64::MIN)
            } else if negative {
                Some(-(v as i64))
            } else {
                Some(v as i64)
            }
        },
        None => None,
    }
}

// ---------------------------------------------------------------------------
// Floats
// ---------------------------------------------------------------------------

/// What CPython's `float(s)` gives; nothing where it raises `ValueError`.
#[verifier::opaque]
pub open spec fn py_float_value(s: Seq<char>) -> Option<DecimalView> {
    let t = trimmed(s, CharSet::WhiteSpace);
    let negative = has_minus(t);
    let body = unsigned(t);
    if ascii_lower(body) == "inf"@ || ascii_lower(body) == "infinity"@ {
        Some(DecimalView::Infinite { negative })
    } else if ascii_lower(body) == "nan"@ {
        Some(DecimalView::NotANumber)
    } else {
        match ungrouped(body) {
            Some(literal) => if !is_float_literal(literal) {
                None
            } else if literal_overflows(literal) {
                Some(DecimalView::Infinite { negative })
            } else {
                Some(DecimalView::Finite { negative, literal: float_form(literal) })
            },
            None => None,
        }
    }
}

/// The view of an optional reading.
pub open spec fn opt_decimal(v: Option<Decimal>) -> Option<DecimalView> {
    match v {
        Some(d) => Some(d@),
        None => None,
    }
}

/// CPython's `float(s)`: surrounding white space, one sign, grouping
/// underscores and the spelled-out infinities and not-a-number are allowed.
pub fn py_float(s: &str) -> (r: Option<Decimal>)
    ensures
        opt_decimal(r) == py_float_value(s@),
        r matches Some(d) ==> d@.wf(),
{
    reveal(py_float_value);
    let t = trim_text(s, CharSet::WhiteSpace);
    let (negative, body) = split_sign(t);
    let lower = ascii_lowercase_chars(body);
    let inf = chars_of("inf");
    let infinity = chars_of("infinity");
    let nan = chars_of("nan");
    if same_chars(lower.as_slice(), inf.as_slice()) || same_chars(
        lower.as_slice(),
        infinity.as_slice(),
    ) {
        return Some(Decimal::Infinite { negative });
    }
    if same_chars(lower.as_slice(), nan.as_slice()) {
        return Some(Decimal::NotANumber);
    }
    let literal = match strip_grouping_underscores(body) {
        Some(literal) => literal,
        None => return None,
    };
    if !check_float_literal(&literal) {
        return None;
    }
    match float_literal(&literal) {
        Some(digits) => {
            proof {
                law_float_form_is_stable(literal@);
                reveal(is_finite_literal);
            }
            Some(Decimal::Finite { negative, literal: digits })
        },
        None => Some(Decimal::Infinite { negative }),
    }
}

/// A reading with zero in the place of an infinity or not-a-number.
pub open spec fn finite_or_zero(v: DecimalView) -> DecimalView {
    if v.is_finite() {
        v
    } else {
        zero_view()
    }
}

/// What `safe_float` gives.
pub open spec fn safe_float_value(s: Seq<char>) -> Option<DecimalView> {
    match py_float_value(s) {
        Some(v) => Some(finite_or_zero(v)),
        None => None,
    }
}

/// Zero.
pub fn zero() -> (r: Decimal)
    ensures
        r@ == zero_view(),
        r@.wf(),
{
    proof {
        reveal_strlit("0");
        assert("0"@ =~= seq!['0']);
        lemma_zero();
        lemma_zero_form();
        reveal(is_finite_literal);
    }
    plain_decimal("0")
}

/// The reading that a literal stands for.
pub(crate) fn plain_decimal(literal: &str) -> (r: Decimal)
    ensures
        r@ == plain(literal@),
{
    Decimal::Finite { negative: false, literal: owned(literal) }
}

/// Parses like CPython's `float()` and puts zero in the place of an infinity
/// or not-a-number. Nothing where CPython raises.
pub fn safe_float(s: &str) -> (r: Option<Decimal>)
    ensures
        opt_decimal(r) == safe_float_value(s@),
        r matches Some(d) ==> d@.wf() && d@.is_finite(),
{
    match py_float(s) {
        Some(v) => match v {
            Decimal::Finite { negative, literal } => Some(Decimal::Finite { negative, literal }),
            _ => Some(zero()),
        },
        None => None,
    }
}

/// A float, or the literal string `"NaN"` where the input was unparsable or
/// not a number.
#[derive(Debug, PartialEq, Eq)]
pub enum PyFloat {
    /// A regular float value.
    Num(Decimal),
    /// The literal string `"NaN"`.
    NanString,
}

/// What a [`PyFloat`] holds.
pub enum PyFloatView {
    /// See [`PyFloat::Num`].
    Num(DecimalView),
    /// See [`PyFloat::NanString`].
    NanString,
}

impl View for PyFloat {
    type V = PyFloatView;

    open spec fn view(&self) -> PyFloatView {
        match self {
            PyFloat::Num(v) => PyFloatView::Num(v@),
            PyFloat::NanString => PyFloatView::NanString,
        }
    }
}

impl PyFloatView {
    /// A number is a reading of a well-formed literal, and not not-a-number.
    pub open spec fn wf(self) -> bool {
        self matches PyFloatView::Num(v) ==> v.wf() && !(v is NotANumber)
    }
}

impl Clone for PyFloat {
    fn clone(&self) -> (r: Self)
        ensures
            r == *self,
    {
        match self {
            PyFloat::Num(v) => PyFloat::Num(v.clone()),
            PyFloat::NanString => PyFloat::NanString,
        }
    }
}

/// What `safe_float_with_nan` gives.
pub open spec fn nan_float_value(s: Seq<char>) -> PyFloatView {
    match py_float_value(s) {
        Some(v) => if v is NotANumber {
            PyFloatView::NanString
        } else {
            PyFloatView::Num(v)
        },
        None => PyFloatView::NanString,
    }
}

/// Parses like CPython's `float()`; the string `"NaN"` stands for unparsable
/// input and for not-a-number.
pub fn safe_float_with_nan(s: &str) -> (r: PyFloat)
    ensures
        r@ == nan_float_value(s@),
        r@.wf(),
{
    match py_float(s) {
        Some(v) => match v {
            Decimal::NotANumber => PyFloat::NanString,
            v => PyFloat::Num(v),
        },
        None => PyFloat::NanString,
    }
}

/// The text of a reading, the way Python's `str()` shows a float: a decimal
/// point is always kept.
pub open spec fn float_text(v: DecimalView) -> Seq<char> {
    match v {
        DecimalView::NotANumber => "nan"@,
        DecimalView::Infinite { negative } => if negative {
            "-inf"@
        } else {
            "inf"@
        },
        DecimalView::Finite { negative, literal } => {
            let sign = if negative {
                seq!['-']
            } else {
                Seq::<char>::empty()
            };
            if literal.contains('.') {
                sign + literal
            } else {
                sign + literal + ".0"@
            }
        },
    }
}

/// Whether `c` is one of the characters.
fn has_char(s: &Vec<char>, c: char) -> (r: bool)
    ensures
        r == s@.contains(c),
{
    for i in 0..s.len()
        invariant
            forall|j: int| 0 <= j < i ==> s@[j] != c,
    {
        if s[i] == c {
            return true;
        }
    }
    false
}

/// Python's `str(float)`, without an exponent: `0.0`, never `0`.
pub fn format_py_float(v: &Decimal) -> (r: String)
    ensures
        r@ == float_text(v@),
{
    match v {
        Decimal::NotANumber => owned("nan"),
        Decimal::Infinite { negative } => if *negative {
            owned("-inf")
        } else {
            owned("inf")
        },
        Decimal::Finite { negative, literal } => {
            let mut out = String::new();
            if *negative {
                out.push('-');
            }
            append_text(&mut out, literal.as_str());
            let chars = chars_of(literal.as_str());
            if !has_char(&chars, '.') {
                append_text(&mut out, ".0");
            }
            assert(out@ =~= float_text(v@));
            out
        },
    }
}

/// The text of a `PyFloat`.
pub open spec fn py_float_text(v: PyFloatView) -> Seq<char> {
    match v {
        PyFloatView::Num(d) => float_text(d),
        PyFloatView::NanString => "NaN"@,
    }
}

impl PyFloat {
    /// Python's `str()` on the value.
    pub fn to_py_string(&self) -> (r: String)
        ensures
            r@ == py_float_text(self@),
    {
        match self {
            PyFloat::Num(v) => format_py_float(v),
            PyFloat::NanString => owned("NaN"),
        }
    }
}

// ---------------------------------------------------------------------------
// Line ends and percent escapes
// ---------------------------------------------------------------------------

/// Python's `str.strip("\r\n")`.
pub fn strip_crlf(s: &str) -> (r: &str)
    ensures
        r@ == trimmed(s@, CharSet::LineEnds),
{
    trim_text(s, CharSet::LineEnds)
}

/// A percent sign with two hexadecimal digits behind it leads.
pub open spec fn leads_escape(bytes: Seq<u8>) -> bool {
    bytes.len() >= 3 && bytes[0] == 0x25 && hex_byte(bytes[1], bytes[2]) is Some
}

/// The bytes with each percent escape replaced by the byte it names;
/// malformed escapes stay as they are.
pub open spec fn percent_decoded(bytes: Seq<u8>) -> Seq<u8>
    decreases bytes.len(),
{
    if bytes.len() == 0 {
        bytes
    } else if leads_escape(bytes) {
        seq![hex_byte(bytes[1], bytes[2])->0] + percent_decoded(bytes.skip(3))
    } else {
        seq![bytes[0]] + percent_decoded(bytes.skip(1))
    }
}

/// What `unquote` gives.
pub open spec fn unquoted(s: Seq<char>) -> Seq<char> {
    lossy_text(percent_decoded(encode_utf8(s)))
}

/// `urllib.parse.unquote` with `errors="replace"`: `%XX` escapes are decoded
/// as UTF-8, malformed escapes stay literal, and replacement characters stand
/// for invalid UTF-8.
pub fn unquote(s: &str) -> (r: String)
    ensures
        r@ == unquoted(s@),
{
    let bytes = s.as_bytes();
    let mut out: Vec<u8> = Vec::new();
    let total: usize = bytes.len();
    let mut i: usize = 0;
    assert(bytes@.skip(0) =~= bytes@);
    assert(out@ + percent_decoded(bytes@) =~= percent_decoded(bytes@));
    while i < total
        invariant
            total == bytes@.len(),
            i <= total,
            out@ + percent_decoded(bytes@.skip(i as int)) == percent_decoded(bytes@),
        decreases total - i,
    {
        let ghost rest = bytes@.skip(i as int);
        let ghost before = out@;
        let mut escape: Option<u8> = None;
        if bytes[i] == 0x25 && total - i >= 3 {
            escape = read_hex_byte(bytes[i + 1], bytes[i + 2]);
        }
        match escape {
            Some(byte) => {
                out.push(byte);
                assert(rest.skip(3) =~= bytes@.skip(i + 3));
                assert(out@ + percent_decoded(rest.skip(3)) =~= before + percent_decoded(rest));
                i = i + 3;
            },
            None => {
                out.push(bytes[i]);
                assert(rest.skip(1) =~= bytes@.skip(i + 1));
                assert(out@ + percent_decoded(rest.skip(1)) =~= before + percent_decoded(rest));
                i = i + 1;
            },
        }
    }
    assert(bytes@.skip(total as int) =~= Seq::<u8>::empty());
    assert(out@ =~= percent_decoded(bytes@));
    decode_lossy(out.as_slice())
}

}
