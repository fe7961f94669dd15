//! What the parts of a line stand for: padding, markers, numbers and colored
//! labels.

use crate::decimal::{is_float_literal, lemma_literal_parts, DecimalView};
use crate::digits::{all_digits, is_digit};
use crate::encoding::hex_byte;
use crate::letters::{ascii_lower, ascii_lower_char};
use crate::message::{boot_banner, crash_marker, payload, LineKind};
use crate::pynum::{
    float_text, nan_float_value, py_float_value, py_int_value, safe_float_value, ungrouped,
    unsigned, without, PyFloatView,
};
use crate::search::{occurs, occurs_at};
use crate::sensor::{color_args, label_at, name_run, without_labels};
use crate::text::{join, law_split_undoes_join, split, trim_back, trim_front, trimmed, CharSet};
use vstd::prelude::*;
use vstd::utf8::is_ascii_chars;

verus! {

// ---------------------------------------------------------------------------
// Padding
// ---------------------------------------------------------------------------

/// What trimming takes away.
pub open spec fn is_padding(set: CharSet, c: char) -> bool {
    match set {
        CharSet::LineEnds => c == '\n' || c == '\r',
        CharSet::Blanks => c == ' ' || c == '\t' || c == '\n' || c == '\r',
        CharSet::WhiteSpace => c == ' ' || '\t' <= c <= '\r' || c == '\u{85}' || c == '\u{a0}' || c
            == '\u{1680}' || '\u{2000}' <= c <= '\u{200a}' || c == '\u{2028}' || c == '\u{2029}'
            || c == '\u{202f}' || c == '\u{205f}' || c == '\u{3000}',
    }
}

/// The whole text is taken away by trimming.
pub open spec fn all_padding(set: CharSet, s: Seq<char>) -> bool {
    forall|i: int| 0 <= i < s.len() ==> is_padding(set, #[trigger] s[i])
}

/// Padding in front is trimmed.
proof fn lemma_padding_in_front(front: Seq<char>, s: Seq<char>, set: CharSet)
    requires
        all_padding(set, front),
    ensures
        trim_front(front + s, set) == trim_front(s, set),
    decreases front.len(),
{
    if front.len() > 0 {
        let rest = front.drop_first();
        assert(is_padding(set, front[0]));
        assert forall|i: int| 0 <= i < rest.len() implies is_padding(set, #[trigger] rest[i]) by {
            assert(rest[i] == front[i + 1]);
        }
        assert((front + s).drop_first() =~= rest + s);
        lemma_padding_in_front(rest, s, set);
    } else {
        assert(front + s =~= s);
    }
}

/// Padding behind is trimmed.
proof fn lemma_padding_behind(s: Seq<char>, back: Seq<char>, set: CharSet)
    requires
        all_padding(set, back),
    ensures
        trim_back(s + back, set) == trim_back(s, set),
    decreases back.len(),
{
    if back.len() > 0 {
        let rest = back.drop_last();
        assert(is_padding(set, back[back.len() - 1]));
        assert((s + back).drop_last() =~= s + rest);
        lemma_padding_behind(s, rest, set);
    } else {
        assert(s + back =~= s);
    }
}

/// Trimming the front does not look behind what stays.
proof fn lemma_front_first(s: Seq<char>, back: Seq<char>, set: CharSet)
    requires
        all_padding(set, back),
    ensures
        trim_back(trim_front(s + back, set), set) == trimmed(s, set),
    decreases s.len(),
{
    if s.len() == 0 {
        let none = Seq::<char>::empty();
        assert(s + back =~= back);
        assert(back + none =~= back);
        lemma_padding_in_front(back, none, set);
        assert(s =~= none);
    } else if is_padding(set, s[0]) {
        assert((s + back).drop_first() =~= s.drop_first() + back);
        lemma_front_first(s.drop_first(), back, set);
    } else {
        lemma_padding_behind(s, back, set);
    }
}

/// Trimming takes away exactly the padding at both ends: whatever padding is
/// put around a text, trimming gives what it gives for the text, and that is
/// the text itself where its ends are no padding.
pub proof fn law_trimming_takes_the_padding(
    front: Seq<char>,
    s: Seq<char>,
    back: Seq<char>,
    set: CharSet,
)
    requires
        all_padding(set, front),
        all_padding(set, back),
    ensures
        trimmed(front + s + back, set) == trimmed(s, set),
        s.len() == 0 ==> trimmed(front + s + back, set).len() == 0,
        s.len() > 0 && !is_padding(set, s[0]) && !is_padding(set, s.last()) ==> trimmed(
            front + s + back,
            set,
        ) == s,
{
    assert(front + s + back =~= front + (s + back));
    lemma_padding_in_front(front, s + back, set);
    lemma_front_first(s, back, set);
}

// ---------------------------------------------------------------------------
// Markers
// ---------------------------------------------------------------------------

/// A line is a boot banner exactly where it leads with the reset reason and
/// holds the boot mode and the flash mode, whatever stands between and behind
/// them.
pub proof fn law_boot_banners(raw: Seq<char>)
    ensures
        boot_banner(raw) <==> raw.len() >= 6 && raw.take(6) == "rst:0x"@ && (exists|i: int|
            0 <= i <= raw.len() - 7 && #[trigger] raw.subrange(i, i + 7) == "boot:0x"@) && (
        exists|i: int|
            0 <= i <= raw.len() - 22 && #[trigger] raw.subrange(i, i + 22)
                == " (SPI_FAST_FLASH_BOOT)"@),
{
    reveal_strlit("rst:0x");
    reveal_strlit("boot:0x");
    reveal_strlit(" (SPI_FAST_FLASH_BOOT)");
    if raw.len() >= 6 {
        assert(raw.take(6) =~= raw.subrange(0, 6));
    }
    lemma_occurs_is(raw, "boot:0x"@, 7);
    lemma_occurs_is(raw, " (SPI_FAST_FLASH_BOOT)"@, 22);
}

/// What it is for a text to occur.
proof fn lemma_occurs_is(hay: Seq<char>, needle: Seq<char>, n: int)
    requires
        needle.len() == n,
    ensures
        occurs(hay, needle) <==> exists|i: int|
            0 <= i <= hay.len() - n && #[trigger] hay.subrange(i, i + n) == needle,
{
    if occurs(hay, needle) {
        let i = choose|i: int| occurs_at(hay, needle, i);
        assert(hay.subrange(i, i + n) == needle);
    }
    if exists|i: int| 0 <= i <= hay.len() - n && #[trigger] hay.subrange(i, i + n) == needle {
        let i = choose|i: int|
            0 <= i <= hay.len() - n && #[trigger] hay.subrange(i, i + n) == needle;
        assert(occurs_at(hay, needle, i));
    }
}

/// The texts that mark a crash dump.
pub open spec fn is_crash_word(word: Seq<char>) -> bool {
    ||| word == "backtrace"@
    ||| word == "guru meditation error"@
    ||| word == "register dump"@
}

/// An ASCII line marks a crash dump exactly where one of three texts stands
/// in it, in whatever case.
pub proof fn law_crash_markers(raw: Seq<char>)
    requires
        is_ascii_chars(raw),
    ensures
        crash_marker(raw) <==> exists|i: int, j: int|
            0 <= i <= j <= raw.len() && is_crash_word(ascii_lower(#[trigger] raw.subrange(i, j))),
{
    let text = ascii_lower(raw);
    lemma_cut_lower(raw);
    reveal_strlit("backtrace");
    reveal_strlit("guru meditation error");
    reveal_strlit("register dump");
    lemma_occurs_is(text, "backtrace"@, 9);
    lemma_occurs_is(text, "guru meditation error"@, 21);
    lemma_occurs_is(text, "register dump"@, 13);
    if crash_marker(raw) {
        if occurs(text, "backtrace"@) {
            let i = choose|i: int|
                0 <= i <= text.len() - 9 && #[trigger] text.subrange(i, i + 9) == "backtrace"@;
            assert(is_crash_word(ascii_lower(raw.subrange(i, i + 9))));
        } else if occurs(text, "guru meditation error"@) {
            let i = choose|i: int|
                0 <= i <= text.len() - 21 && #[trigger] text.subrange(i, i + 21)
                    == "guru meditation error"@;
            assert(is_crash_word(ascii_lower(raw.subrange(i, i + 21))));
        } else {
            let i = choose|i: int|
                0 <= i <= text.len() - 13 && #[trigger] text.subrange(i, i + 13)
                    == "register dump"@;
            assert(is_crash_word(ascii_lower(raw.subrange(i, i + 13))));
        }
    }
    if exists|i: int, j: int|
        0 <= i <= j <= raw.len() && is_crash_word(ascii_lower(#[trigger] raw.subrange(i, j))) {
        let (i, j) = choose|i: int, j: int|
            0 <= i <= j <= raw.len() && is_crash_word(ascii_lower(#[trigger] raw.subrange(i, j)));
        let word = ascii_lower(raw.subrange(i, j));
        assert(word.len() == j - i);
        assert(text.subrange(i, j) == word);
        assert(text.subrange(i, i + word.len()) == word);
    }
}

/// A part of a lowercased text is the lowercased part.
proof fn lemma_cut_lower(s: Seq<char>)
    ensures
        forall|i: int, j: int|
            0 <= i <= j <= s.len() ==> #[trigger] ascii_lower(s).subrange(i, j) == ascii_lower(
                s.subrange(i, j),
            ),
{
    assert forall|i: int, j: int| 0 <= i <= j <= s.len() implies #[trigger] ascii_lower(
        s,
    ).subrange(i, j) == ascii_lower(s.subrange(i, j)) by {
        assert(ascii_lower(s).subrange(i, j) =~= ascii_lower(s.subrange(i, j)));
    }
}

/// Two hexadecimal digits of either case denote a byte by their places, and
/// nothing else denotes one.
pub proof fn law_hexadecimal_digits(hi: u8, lo: u8)
    ensures
        hex_byte(hi, lo) == (match (sixteenth(hi), sixteenth(lo)) {
            (Some(a), Some(b)) => Some((16 * a + b) as u8),
            _ => None,
        }),
{
}

/// The number that a hexadecimal digit denotes.
pub open spec fn sixteenth(digit: u8) -> Option<int> {
    if '0' as int <= digit <= '9' as int {
        Some(digit - '0' as int)
    } else if 'a' as int <= digit <= 'f' as int {
        Some(digit - 'a' as int + 10)
    } else if 'A' as int <= digit <= 'F' as int {
        Some(digit - 'A' as int + 10)
    } else {
        None
    }
}


// ---------------------------------------------------------------------------
// Numbers
// ---------------------------------------------------------------------------

/// White space around a number does not matter.
pub proof fn law_numbers_may_be_padded(front: Seq<char>, s: Seq<char>, back: Seq<char>)
    requires
        all_padding(CharSet::WhiteSpace, front),
        all_padding(CharSet::WhiteSpace, back),
    ensures
        py_int_value(front + s + back) == py_int_value(s),
        py_float_value(front + s + back) == py_float_value(s),
{
    reveal(py_float_value);
    law_trimming_takes_the_padding(front, s, back, CharSet::WhiteSpace);
}

/// The other sign.
pub open spec fn negated(v: DecimalView) -> DecimalView {
    match v {
        DecimalView::Finite { negative, literal } => DecimalView::Finite {
            negative: !negative,
            literal,
        },
        DecimalView::Infinite { negative } => DecimalView::Infinite { negative: !negative },
        DecimalView::NotANumber => DecimalView::NotANumber,
    }
}

/// A plus sign in front of a number changes nothing, and a minus sign negates
/// the number. There is at most one sign.
pub proof fn law_signs(s: Seq<char>)
    requires
        s.len() > 0,
        !is_padding(CharSet::WhiteSpace, s[0]),
        !is_padding(CharSet::WhiteSpace, s.last()),
    ensures
        s[0] != '-' && s[0] != '+' ==> {
            &&& py_int_value(seq!['+'] + s) == py_int_value(s)
            &&& py_int_value(s) matches Some(v) ==> py_int_value(seq!['-'] + s) == Some(-v)
            &&& py_float_value(seq!['+'] + s) == py_float_value(s)
            &&& py_float_value(seq!['-'] + s) == match py_float_value(s) {
                Some(v) => Some(negated(v)),
                None => None,
            }
        },
        s[0] == '-' || s[0] == '+' ==> {
            &&& py_int_value(seq!['+'] + s) is None
            &&& py_int_value(seq!['-'] + s) is None
            &&& py_float_value(seq!['+'] + s) is None
            &&& py_float_value(seq!['-'] + s) is None
        },
{
    reveal(py_float_value);
    let none = Seq::<char>::empty();
    let plus = seq!['+'] + s;
    let minus = seq!['-'] + s;
    assert(none + s + none =~= s);
    assert(none + plus + none =~= plus);
    assert(none + minus + none =~= minus);
    assert(plus.last() == s.last() && minus.last() == s.last());
    law_trimming_takes_the_padding(none, s, none, CharSet::WhiteSpace);
    law_trimming_takes_the_padding(none, plus, none, CharSet::WhiteSpace);
    law_trimming_takes_the_padding(none, minus, none, CharSet::WhiteSpace);
    assert(unsigned(plus) =~= s);
    assert(unsigned(minus) =~= s);
    if s[0] == '-' || s[0] == '+' {
        lemma_no_second_sign(s);
    }
}

/// What leads with a sign is neither a run of digits nor a literal, nor one
/// of the words.
proof fn lemma_no_second_sign(s: Seq<char>)
    requires
        s.len() > 0,
        s[0] == '-' || s[0] == '+',
    ensures
        ungrouped(s) matches Some(l) ==> l.len() > 0 && !all_digits(l) && !is_float_literal(l),
        ascii_lower(s) != "inf"@,
        ascii_lower(s) != "infinity"@,
        ascii_lower(s) != "nan"@,
{
    reveal_strlit("inf");
    reveal_strlit("infinity");
    reveal_strlit("nan");
    assert(ascii_lower(s)[0] == s[0]);
    lemma_without_keeps_the_head(s);
    if let Some(l) = ungrouped(s) {
        assert(!is_digit(l[0]));
        if is_float_literal(l) {
            lemma_literal_start(l);
        }
    }
}

/// Dropping characters keeps a first one that is another.
proof fn lemma_without_keeps_the_head(s: Seq<char>)
    requires
        s.len() > 0,
        s[0] != '_',
    ensures
        without(s, '_').len() > 0,
        without(s, '_')[0] == s[0],
    decreases s.len(),
{
    if s.len() > 1 {
        lemma_without_keeps_the_head(s.drop_last());
    } else {
        assert(s.drop_last() =~= Seq::<char>::empty());
        reveal_with_fuel(without, 2);
    }
}

/// A literal starts with a digit or the point.
proof fn lemma_literal_start(s: Seq<char>)
    requires
        is_float_literal(s),
    ensures
        s.len() > 0,
        is_digit(s[0]) || s[0] == '.',
{
    lemma_literal_parts(s);
}

/// Nothing is dropped where there is nothing to drop.
proof fn lemma_without_none(s: Seq<char>)
    requires
        !s.contains('_'),
    ensures
        without(s, '_') == s,
    decreases s.len(),
{
    if s.len() > 0 {
        assert(s[s.len() - 1] != '_');
        assert forall|i: int| 0 <= i < s.len() - 1 implies #[trigger] s.drop_last()[i] != '_' by {
            assert(s[i] != '_');
        }
        lemma_without_none(s.drop_last());
        assert(s.drop_last().push(s.last()) =~= s);
    }
}

/// Dropping works part by part.
proof fn lemma_without_concat(a: Seq<char>, b: Seq<char>)
    ensures
        without(a + b, '_') == without(a, '_') + without(b, '_'),
    decreases b.len(),
{
    if b.len() == 0 {
        assert(a + b =~= a);
        assert(without(a, '_') + without(b, '_') =~= without(a, '_'));
    } else {
        assert((a + b).drop_last() =~= a + b.drop_last());
        lemma_without_concat(a, b.drop_last());
        let left = without(a, '_');
        let right = without(b.drop_last(), '_');
        assert((left + right).push(b.last()) =~= left + right.push(b.last()));
    }
}

/// An underscore between two digits does not matter.
pub proof fn law_digits_may_be_grouped(a: Seq<char>, b: Seq<char>)
    requires
        a.len() > 0,
        b.len() > 0,
        all_digits(a),
        all_digits(b),
    ensures
        py_int_value(a + seq!['_'] + b) == py_int_value(a + b),
        py_float_value(a + seq!['_'] + b) == py_float_value(a + b),
{
    reveal(py_float_value);
    let none = Seq::<char>::empty();
    let whole = a + seq!['_'] + b;
    let plain = a + b;
    assert(is_digit(a[0]) && is_digit(a[a.len() - 1]) && is_digit(b[0]) && is_digit(
        b[b.len() - 1],
    ));
    assert(whole[0] == a[0] && whole.last() == b.last());
    assert(plain[0] == a[0] && plain.last() == b.last());
    assert(none + whole + none =~= whole);
    assert(none + plain + none =~= plain);
    law_trimming_takes_the_padding(none, whole, none, CharSet::WhiteSpace);
    law_trimming_takes_the_padding(none, plain, none, CharSet::WhiteSpace);
    assert forall|i: int| 0 <= i < whole.len() && #[trigger] whole[i] == '_' implies 0 < i
        < whole.len() - 1 && is_digit(whole[i - 1]) && is_digit(whole[i + 1]) by {
        if i < a.len() {
            assert(is_digit(a[i]));
        } else if i > a.len() {
            assert(is_digit(b[i - a.len() - 1]));
        } else {
            assert(whole[i - 1] == a[a.len() - 1]);
            assert(whole[i + 1] == b[0]);
        }
    }
    assert forall|i: int| 0 <= i < plain.len() implies #[trigger] plain[i] != '_' by {
        if i < a.len() {
            assert(is_digit(a[i]));
        } else {
            assert(is_digit(b[i - a.len()]));
        }
    }
    assert forall|i: int| 0 <= i < a.len() implies #[trigger] a[i] != '_' by {
        assert(is_digit(a[i]));
    }
    assert forall|i: int| 0 <= i < b.len() implies #[trigger] b[i] != '_' by {
        assert(is_digit(b[i]));
    }
    lemma_without_none(plain);
    lemma_without_none(a);
    lemma_without_none(b);
    lemma_without_concat(a, seq!['_']);
    lemma_without_concat(a + seq!['_'], b);
    assert(seq!['_'].drop_last() =~= none);
    reveal_with_fuel(without, 2);
    assert(without(seq!['_'], '_') =~= none);
    assert(a + none =~= a);
    lemma_no_word(whole);
    lemma_no_word(plain);
}

/// What leads with a digit is none of the words.
proof fn lemma_no_word(s: Seq<char>)
    requires
        s.len() > 0,
        is_digit(s[0]) || s[0] == '_',
    ensures
        ascii_lower(s) != "inf"@,
        ascii_lower(s) != "infinity"@,
        ascii_lower(s) != "nan"@,
{
    reveal_strlit("inf");
    reveal_strlit("infinity");
    reveal_strlit("nan");
    assert(ascii_lower(s)[0] == s[0]);
}

/// An underscore that does not stand between two digits makes a text no
/// number.
pub proof fn law_underscores_stand_between_digits(s: Seq<char>, i: int)
    requires
        0 <= i < s.len(),
        !is_padding(CharSet::WhiteSpace, s[0]),
        !is_padding(CharSet::WhiteSpace, s.last()),
        s[0] != '-' && s[0] != '+',
        s[i] == '_',
        i == 0 || i == s.len() - 1 || !is_digit(s[i - 1]) || !is_digit(s[i + 1]),
    ensures
        py_int_value(s) is None,
        py_float_value(s) is None,
{
    reveal(py_float_value);
    let none = Seq::<char>::empty();
    assert(none + s + none =~= s);
    law_trimming_takes_the_padding(none, s, none, CharSet::WhiteSpace);
    assert(ascii_lower(s)[i] == '_');
    reveal_strlit("inf");
    reveal_strlit("infinity");
    reveal_strlit("nan");
    assert(ascii_lower(s).contains('_'));
    assert forall|j: int| 0 <= j < 3 implies #[trigger] "inf"@[j] != '_' && "nan"@[j] != '_' by {}
    assert forall|j: int| 0 <= j < 8 implies #[trigger] "infinity"@[j] != '_' by {}
}

/// The infinities and not-a-number are spelled out, in whatever case.
pub proof fn law_spelled_out_numbers(word: Seq<char>)
    ensures
        ascii_lower(word) == "inf"@ || ascii_lower(word) == "infinity"@ ==> py_float_value(word)
            == Some(DecimalView::Infinite { negative: false }),
        ascii_lower(word) == "nan"@ ==> py_float_value(word) == Some(DecimalView::NotANumber),
{
    reveal(py_float_value);
    reveal_strlit("inf");
    reveal_strlit("infinity");
    reveal_strlit("nan");
    if ascii_lower(word) == "inf"@ || ascii_lower(word) == "infinity"@ || ascii_lower(word)
        == "nan"@ {
        let l = ascii_lower(word);
        let n = word.len() - 1;
        assert("inf"@.len() == 3 && "infinity"@.len() == 8 && "nan"@.len() == 3);
        assert(word.len() == l.len());
        assert(l[0] == ascii_lower_char(word[0]) && l[n] == ascii_lower_char(word[n]));
        let none = Seq::<char>::empty();
        assert(none + word + none =~= word);
        law_trimming_takes_the_padding(none, word, none, CharSet::WhiteSpace);
        assert(unsigned(word) == word);
    }
}

/// What is made of a text that should be a number. Where a number must come,
/// a text that is none is refused, and what is not finite counts as zero.
/// Where the text `NaN` may stand for a number, it stands for texts that are
/// none and for not-a-number.
pub proof fn law_readings(s: Seq<char>)
    ensures
        safe_float_value(s) is None <==> py_float_value(s) is None,
        py_float_value(s) matches Some(v) ==> {
            &&& v is Finite ==> safe_float_value(s) == Some(v)
            &&& !(v is Finite) ==> safe_float_value(s) == Some(
                DecimalView::Finite { negative: false, literal: "0"@ },
            )
        },
        nan_float_value(s) is NanString <==> py_float_value(s) is None || py_float_value(s) == Some(
            DecimalView::NotANumber,
        ),
        nan_float_value(s) matches PyFloatView::Num(v) ==> py_float_value(s) == Some(v),
{
}

/// A finite number is shown with a decimal point, and with a minus sign where
/// it is negative.
pub proof fn law_numbers_show_their_point(negative: bool, literal: Seq<char>)
    requires
        literal.len() > 0,
        literal[0] != '-',
    ensures
        ({
            let text = float_text(DecimalView::Finite { negative, literal });
            &&& text.contains('.')
            &&& text[0] == '-' <==> negative
        }),
        float_text(DecimalView::NotANumber) == "nan"@,
        float_text(DecimalView::Infinite { negative: false }) == "inf"@,
        float_text(DecimalView::Infinite { negative: true }) == "-inf"@,
{
    let text = float_text(DecimalView::Finite { negative, literal });
    reveal_strlit(".0");
    assert(text[0] == if negative {
        '-'
    } else {
        literal[0]
    });
    let sign: int = if negative {
        1
    } else {
        0
    };
    if literal.contains('.') {
        let i = choose|i: int| 0 <= i < literal.len() && literal[i] == '.';
        assert(text[sign + i] == '.');
    } else {
        assert(text[sign + literal.len()] == '.');
    }
}


// ---------------------------------------------------------------------------
// Colored labels
// ---------------------------------------------------------------------------

/// A colored label: a name, written bold in one of six colors.
pub open spec fn is_label(s: Seq<char>, color: char, name: Seq<char>) -> bool {
    &&& s == "\u{1b}[1;3"@ + seq![color] + "m "@ + name + "\u{1b}[0m"@
    &&& '1' <= color <= '6'
    &&& forall|i: int|
        0 <= i < name.len() ==> 'a' <= #[trigger] name[i] <= 'z' || '0' <= name[i] <= '9' || name[i]
            == '_'
}

/// Labels and values in turn.
pub open spec fn labeled(labels: Seq<Seq<char>>, values: Seq<Seq<char>>) -> Seq<char>
    decreases values.len(),
{
    if values.len() == 0 {
        Seq::<char>::empty()
    } else {
        labels[0] + values[0] + labeled(labels.skip(1), values.skip(1))
    }
}

/// A color-coded argument gives the values that stand behind its labels, in
/// order, whatever the labels say and whatever their color.
pub proof fn law_labels_separate_the_values(
    labels: Seq<Seq<char>>,
    colors: Seq<char>,
    names: Seq<Seq<char>>,
    values: Seq<Seq<char>>,
)
    requires
        values.len() > 0,
        labels.len() == values.len(),
        colors.len() == values.len(),
        names.len() == values.len(),
        forall|i: int|
            0 <= i < values.len() ==> is_label(#[trigger] labels[i], colors[i], names[i]),
        forall|i: int|
            0 <= i < values.len() ==> !(#[trigger] values[i]).contains(',') && !values[i].contains(
                '\u{1b}',
            ),
    ensures
        color_args(labeled(labels, values)) == values,
{
    let none = Seq::<char>::empty();
    let s = labeled(labels, values);
    lemma_labels_become_commas(labels, colors, names, values);
    let parts = seq![none] + values;
    lemma_comma_each(values);
    assert(none + comma_each(values) =~= comma_each(values));
    assert(join(parts, ',') == comma_each(values)) by {
        lemma_join_from(none, values);
    }
    assert forall|i: int| 0 <= i < parts.len() implies !(#[trigger] parts[i]).contains(',') by {
        if i > 0 {
            assert(parts[i] == values[i - 1]);
        }
    }
    law_split_undoes_join(parts, ',');
    assert(split(without_labels(s, 0), ',') == parts);
    assert(parts[0] == none);
    assert(parts.skip(1) =~= values);
}

/// A comma in front of each value.
spec fn comma_each(values: Seq<Seq<char>>) -> Seq<char>
    decreases values.len(),
{
    if values.len() == 0 {
        Seq::<char>::empty()
    } else {
        seq![','] + values[0] + comma_each(values.skip(1))
    }
}

/// The same, taken from the end.
proof fn lemma_comma_each(values: Seq<Seq<char>>)
    requires
        values.len() > 0,
    ensures
        comma_each(values) == comma_each(values.drop_last()) + (seq![','] + values.last()),
    decreases values.len(),
{
    if values.len() > 1 {
        let rest = values.skip(1);
        lemma_comma_each(rest);
        assert(rest.drop_last() =~= values.drop_last().skip(1));
        assert(values.drop_last()[0] == values[0]);
        let head = seq![','] + values[0];
        let middle = comma_each(rest.drop_last());
        let tail = seq![','] + values.last();
        assert(head + (middle + tail) =~= (head + middle) + tail);
    } else {
        let none = Seq::<char>::empty();
        assert(values.skip(1) =~= Seq::<Seq<char>>::empty());
        assert(values.drop_last() =~= Seq::<Seq<char>>::empty());
        assert(seq![','] + values[0] + none =~= none + (seq![','] + values.last()));
    }
}

/// Joining puts a comma in front of each part but the first.
proof fn lemma_join_from(first: Seq<char>, values: Seq<Seq<char>>)
    ensures
        join(seq![first] + values, ',') == first + comma_each(values),
    decreases values.len(),
{
    let parts = seq![first] + values;
    if values.len() == 0 {
        assert(parts.len() == 1 && parts[0] == first);
        assert(first + comma_each(values) =~= first);
    } else {
        let fewer = values.drop_last();
        assert(parts.drop_last() =~= seq![first] + fewer);
        assert(parts.last() == values.last());
        lemma_join_from(first, fewer);
        lemma_comma_each(values);
        assert((first + comma_each(fewer)).push(',') + values.last() =~= first + (comma_each(fewer)
            + (seq![','] + values.last())));
    }
}

/// Each label becomes a comma.
proof fn lemma_labels_become_commas(
    labels: Seq<Seq<char>>,
    colors: Seq<char>,
    names: Seq<Seq<char>>,
    values: Seq<Seq<char>>,
)
    requires
        labels.len() == values.len(),
        colors.len() == values.len(),
        names.len() == values.len(),
        forall|i: int|
            0 <= i < values.len() ==> is_label(#[trigger] labels[i], colors[i], names[i]),
        forall|i: int| 0 <= i < values.len() ==> !(#[trigger] values[i]).contains('\u{1b}'),
    ensures
        without_labels(labeled(labels, values), 0) == comma_each(values),
    decreases values.len(),
{
    if values.len() > 0 {
        let (l, c, n, v) = (labels.skip(1), colors.skip(1), names.skip(1), values.skip(1));
        assert forall|i: int| 0 <= i < v.len() implies is_label(#[trigger] l[i], c[i], n[i]) by {
            assert(is_label(labels[i + 1], colors[i + 1], names[i + 1]));
        }
        assert forall|i: int| 0 <= i < v.len() implies !(#[trigger] v[i]).contains('\u{1b}') by {
            assert(!values[i + 1].contains('\u{1b}'));
        }
        lemma_labels_become_commas(l, c, n, v);
        let rest = labeled(l, v);
        let behind = values[0] + rest;
        assert(labels[0] + values[0] + rest =~= labels[0] + behind);
        assert(is_label(labels[0], colors[0], names[0]));
        lemma_label_in_front(labels[0], colors[0], names[0], behind);
        lemma_value_in_front(values[0], rest);
        assert(seq![','] + (values[0] + comma_each(v)) =~= seq![','] + values[0] + comma_each(v));
    }
}

/// What stands in front does not change how the rest is read.
proof fn lemma_labels_behind(front: Seq<char>, s: Seq<char>, at: int)
    requires
        0 <= at <= s.len(),
    ensures
        without_labels(front + s, front.len() + at) == without_labels(s, at),
    decreases s.len() - at,
{
    let n = front.len() as int;
    let whole = front + s;
    if at < s.len() {
        lemma_label_behind(front, s, at);
        assert(whole[n + at] == s[at]);
        match label_at(s, at) {
            Some(len) => {
                lemma_name_run_bound(s, at + 8);
                lemma_labels_behind(front, s, at + len);
                assert(n + (at + len) == n + at + len);
            },
            None => {
                lemma_labels_behind(front, s, at + 1);
                assert(n + (at + 1) == n + at + 1);
            },
        }
    }
}

/// A label is found wherever it stands.
proof fn lemma_label_behind(front: Seq<char>, s: Seq<char>, at: int)
    requires
        0 <= at < s.len(),
    ensures
        label_at(front + s, front.len() + at) == label_at(s, at),
{
    let n = front.len() as int;
    let whole = front + s;
    assert forall|i: int| 0 <= i < s.len() implies #[trigger] whole[n + i] == s[i] by {}
    lemma_name_run_behind(front, s, at + 8);
    lemma_name_run_bound(s, at + 8);
    assert(n + (at + 8) == n + at + 8);
    let name = name_run(s, at + 8) as int;
    if at + 8 <= s.len() {
        assert(whole[n + at] == s[at] && whole[n + (at + 1)] == s[at + 1] && whole[n + (at + 2)]
            == s[at + 2] && whole[n + (at + 3)] == s[at + 3] && whole[n + (at + 4)] == s[at + 4]
            && whole[n + (at + 5)] == s[at + 5] && whole[n + (at + 6)] == s[at + 6] && whole[n + (at
            + 7)] == s[at + 7]);
        let e = at + 8 + name;
        if e + 4 <= s.len() {
            assert(whole[n + e] == s[e] && whole[n + (e + 1)] == s[e + 1] && whole[n + (e + 2)]
                == s[e + 2] && whole[n + (e + 3)] == s[e + 3]);
        }
    }
}

/// A name is as long wherever it stands.
proof fn lemma_name_run_behind(front: Seq<char>, s: Seq<char>, at: int)
    requires
        0 <= at,
    ensures
        name_run(front + s, front.len() + at) == name_run(s, at),
    decreases s.len() - at,
{
    if at < s.len() {
        assert((front + s)[front.len() + at] == s[at]);
        lemma_name_run_behind(front, s, at + 1);
        assert(front.len() + (at + 1) == front.len() + at + 1);
    }
}

/// A name ends with the text.
proof fn lemma_name_run_bound(s: Seq<char>, at: int)
    requires
        0 <= at,
    ensures
        at <= s.len() ==> at + name_run(s, at) <= s.len(),
        at > s.len() ==> name_run(s, at) == 0,
    decreases s.len() - at,
{
    if at < s.len() {
        lemma_name_run_bound(s, at + 1);
    }
}

/// A name goes on until another character stands there.
proof fn lemma_name_run_is(s: Seq<char>, at: int, end: int)
    requires
        0 <= at <= end < s.len(),
        forall|i: int|
            at <= i < end ==> 'a' <= #[trigger] s[i] <= 'z' || '0' <= s[i] <= '9' || s[i] == '_',
        s[end] == '\u{1b}',
    ensures
        name_run(s, at) == end - at,
    decreases end - at,
{
    if at < end {
        assert('a' <= s[at] <= 'z' || '0' <= s[at] <= '9' || s[at] == '_');
        lemma_name_run_is(s, at + 1, end);
    }
}

/// A label in front becomes a comma.
proof fn lemma_label_in_front(label: Seq<char>, color: char, name: Seq<char>, rest: Seq<char>)
    requires
        is_label(label, color, name),
    ensures
        without_labels(label + rest, 0) == seq![','] + without_labels(rest, 0),
{
    let s = label + rest;
    reveal_strlit("\u{1b}[1;3");
    reveal_strlit("m ");
    reveal_strlit("\u{1b}[0m");
    let n = name.len() as int;
    assert(label.len() == 12 + n);
    assert forall|i: int| 8 <= i < 8 + n implies #[trigger] s[i] == name[i - 8] by {}
    assert forall|i: int| 8 <= i < 8 + n implies 'a' <= #[trigger] s[i] <= 'z' || '0' <= s[i]
        <= '9' || s[i] == '_' by {
        assert(s[i] == name[i - 8]);
    }
    assert(s[8 + n] == '\u{1b}');
    lemma_name_run_is(s, 8, 8 + n);
    assert(label_at(s, 0) == Some(12 + n));
    lemma_labels_behind(label, rest, 0);
}

/// A value in front stays.
proof fn lemma_value_in_front(value: Seq<char>, rest: Seq<char>)
    requires
        !value.contains('\u{1b}'),
    ensures
        without_labels(value + rest, 0) == value + without_labels(rest, 0),
    decreases value.len(),
{
    let s = value + rest;
    if value.len() > 0 {
        let one = seq![value[0]];
        let more = value.skip(1);
        assert forall|i: int| 0 <= i < more.len() implies #[trigger] more[i] != '\u{1b}' by {
            assert(value[i + 1] != '\u{1b}');
        }
        assert(value[0] != '\u{1b}');
        lemma_value_in_front(more, rest);
        assert(s =~= one + (more + rest));
        lemma_labels_behind(one, more + rest, 0);
        assert(one + (more + without_labels(rest, 0)) =~= value + without_labels(rest, 0));
    } else {
        assert(s =~= rest);
        assert(value + without_labels(rest, 0) =~= without_labels(rest, 0));
    }
}


/// A color-coded sensor line says what the plain line with its values says.
pub proof fn law_colored_sensor_lines(
    labels: Seq<Seq<char>>,
    colors: Seq<char>,
    names: Seq<Seq<char>>,
    values: Seq<Seq<char>>,
)
    requires
        values.len() > 1,
        labels.len() == values.len(),
        colors.len() == values.len(),
        names.len() == values.len(),
        forall|i: int|
            0 <= i < values.len() ==> is_label(#[trigger] labels[i], colors[i], names[i]),
        forall|i: int|
            0 <= i < values.len() ==> !(#[trigger] values[i]).contains(',') && !values[i].contains(
                '\u{1b}',
            ),
    ensures
        payload(LineKind::Sensors, seq![labeled(labels, values)]) == payload(
            LineKind::Sensors,
            values,
        ),
{
    law_labels_separate_the_values(labels, colors, names, values);
}

}
