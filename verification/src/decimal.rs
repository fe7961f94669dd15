//! Decimal literals and the numbers they stand for.
//!
//! A [`Decimal`] is a double-precision float by the digits that it shows, an
//! infinity or not-a-number.

use crate::bignum::{
    infinity_bound, lemma_bound_range, lemma_reaches, lemma_stays, reaches, reaches_infinity,
    stays_above_zero,
};
use crate::canonical::{
    canonical, drop_leading, lemma_drop_leading, lemma_drop_leading_push,
    lemma_stays_significant, literal_vanishes, significant, write_positional,
};
use crate::digits::{
    all_digits, digit_value, digits_value, is_digit, lemma_ten_positive, ten,
};
use crate::shortest::float_form;
use crate::text::owned;
use vstd::prelude::*;

verus! {

/// How many digits follow each other in `s` from index `from` on.
pub open spec fn digit_run(s: Seq<char>, from: int) -> nat
    decreases s.len() - from,
{
    if 0 <= from < s.len() && is_digit(s[from]) {
        1 + digit_run(s, from + 1)
    } else {
        0
    }
}

/// How many digits a literal has before its point.
pub open spec fn whole_len(s: Seq<char>) -> int {
    digit_run(s, 0) as int
}

/// A point follows the first digits.
pub open spec fn has_point(s: Seq<char>) -> bool {
    whole_len(s) < s.len() && s[whole_len(s)] == '.'
}

/// How many digits a literal has behind its point.
pub open spec fn fraction_len(s: Seq<char>) -> int {
    if has_point(s) {
        digit_run(s, whole_len(s) + 1) as int
    } else {
        0
    }
}

/// Where the digits and the point end.
pub open spec fn mantissa_end(s: Seq<char>) -> int {
    if has_point(s) {
        whole_len(s) + 1 + fraction_len(s)
    } else {
        whole_len(s)
    }
}

/// The digits before and behind the point.
pub open spec fn mantissa(s: Seq<char>) -> Seq<char> {
    s.take(whole_len(s)) + s.subrange(mantissa_end(s) - fraction_len(s), mantissa_end(s))
}

/// The digits of an exponent part, behind its letter and its sign.
pub open spec fn exponent_digits(t: Seq<char>) -> Seq<char> {
    if t.len() >= 2 && (t[1] == '+' || t[1] == '-') {
        t.skip(2)
    } else {
        t.skip(1)
    }
}

/// The letter `e`, a sign where there is one, and digits.
pub open spec fn is_exponent(t: Seq<char>) -> bool {
    &&& t.len() >= 2
    &&& t[0] == 'e' || t[0] == 'E'
    &&& exponent_digits(t).len() > 0
    &&& all_digits(exponent_digits(t))
}

/// The power of ten that an exponent part asks for; an absent one asks for
/// none.
pub open spec fn exponent_value(t: Seq<char>) -> int {
    if t.len() == 0 {
        0
    } else if t.len() >= 2 && t[1] == '-' {
        -(digits_value(exponent_digits(t)) as int)
    } else {
        digits_value(exponent_digits(t)) as int
    }
}

/// The grammar of an unsigned decimal number: digits with at most one point
/// among or around them, then an exponent part or nothing.
pub open spec fn is_float_literal(s: Seq<char>) -> bool {
    &&& mantissa(s).len() > 0
    &&& mantissa_end(s) == s.len() || is_exponent(s.skip(mantissa_end(s)))
}

/// The power of ten by which the digits of a literal are scaled.
pub open spec fn literal_scale(s: Seq<char>) -> int {
    exponent_value(s.skip(mantissa_end(s))) - fraction_len(s)
}

/// The literal denotes a number that rounds to infinity.
pub open spec fn literal_overflows(s: Seq<char>) -> bool {
    reaches(digits_value(mantissa(s)), literal_scale(s), infinity_bound())
}

/// A literal in canonical form that a finite float shows.
#[verifier::opaque]
pub open spec fn is_finite_literal(s: Seq<char>) -> bool {
    is_float_literal(s) && canonical(s) == s && float_form(s) == s && !literal_overflows(s)
}

/// A floating-point reading.
#[derive(Debug, PartialEq, Eq)]
pub enum Decimal {
    /// The float that shows a decimal literal, negated or not.
    Finite {
        /// A minus sign precedes the literal.
        negative: bool,
        /// Digits, with a point among them where there is a fraction.
        literal: String,
    },
    /// An infinity.
    Infinite {
        /// The infinity below every number.
        negative: bool,
    },
    /// Not a number.
    NotANumber,
}

/// What a [`Decimal`] holds.
pub enum DecimalView {
    /// See [`Decimal::Finite`].
    Finite { negative: bool, literal: Seq<char> },
    /// See [`Decimal::Infinite`].
    Infinite { negative: bool },
    /// See [`Decimal::NotANumber`].
    NotANumber,
}

impl View for Decimal {
    type V = DecimalView;

    open spec fn view(&self) -> DecimalView {
        match self {
            Decimal::Finite { negative, literal } => DecimalView::Finite {
                negative: *negative,
                literal: literal@,
            },
            Decimal::Infinite { negative } => DecimalView::Infinite { negative: *negative },
            Decimal::NotANumber => DecimalView::NotANumber,
        }
    }
}

impl DecimalView {
    /// A finite reading holds a literal that a finite float shows.
    pub open spec fn wf(self) -> bool {
        self matches DecimalView::Finite { negative, literal } ==> is_finite_literal(literal)
    }

    /// Neither an infinity nor not-a-number.
    pub open spec fn is_finite(self) -> bool {
        self is Finite
    }

    /// The number lies above zero.
    pub open spec fn is_positive(self) -> bool {
        match self {
            DecimalView::Finite { negative, literal } => !negative && digits_value(
                mantissa(literal),
            ) > 0,
            DecimalView::Infinite { negative } => !negative,
            DecimalView::NotANumber => false,
        }
    }
}

/// The reading that the literal `text` stands for.
pub open spec fn plain(text: Seq<char>) -> DecimalView {
    DecimalView::Finite { negative: false, literal: text }
}

/// Zero.
pub open spec fn zero_view() -> DecimalView {
    plain("0"@)
}

impl Clone for Decimal {
    fn clone(&self) -> (r: Self)
        ensures
            r == *self,
    {
        match self {
            Decimal::Finite { negative, literal } => Decimal::Finite {
                negative: *negative,
                literal: literal.clone(),
            },
            Decimal::Infinite { negative } => Decimal::Infinite { negative: *negative },
            Decimal::NotANumber => Decimal::NotANumber,
        }
    }
}

/// Runs of digits: what `digit_run` counts are digits, and no digit follows.
pub proof fn lemma_digit_run(s: Seq<char>, from: int)
    requires
        0 <= from <= s.len(),
    ensures
        from + digit_run(s, from) <= s.len(),
        forall|i: int| from <= i < from + digit_run(s, from) ==> is_digit(#[trigger] s[i]),
        from + digit_run(s, from) < s.len() ==> !is_digit(s[from + digit_run(s, from)]),
    decreases s.len() - from,
{
    if from < s.len() && is_digit(s[from]) {
        lemma_digit_run(s, from + 1);
    }
}

/// A run of digits that ends where another character or nothing follows.
pub proof fn lemma_digit_run_is(s: Seq<char>, from: int, n: nat)
    requires
        0 <= from,
        from + n <= s.len(),
        forall|i: int| from <= i < from + n ==> is_digit(#[trigger] s[i]),
        from + n < s.len() ==> !is_digit(s[from + n]),
    ensures
        digit_run(s, from) == n,
    decreases n,
{
    if n > 0 {
        assert(is_digit(s[from]));
        lemma_digit_run_is(s, from + 1, (n - 1) as nat);
    }
}

/// The parts of a literal lie inside it.
pub proof fn lemma_literal_parts(s: Seq<char>)
    ensures
        0 <= whole_len(s) <= mantissa_end(s) <= s.len(),
        0 <= fraction_len(s),
        mantissa_end(s) - fraction_len(s) >= whole_len(s),
        all_digits(mantissa(s)),
        mantissa(s).len() == whole_len(s) + fraction_len(s),
{
    lemma_digit_run(s, 0);
    if has_point(s) {
        lemma_digit_run(s, whole_len(s) + 1);
    }
    assert forall|i: int| 0 <= i < mantissa(s).len() implies is_digit(#[trigger] mantissa(s)[i]) by {
        if i < whole_len(s) {
            assert(mantissa(s)[i] == s[i]);
        } else {
            let j = mantissa_end(s) - fraction_len(s) + (i - whole_len(s));
            assert(mantissa(s)[i] == s[j]);
        }
    }
}

/// The index behind the digits of `s` from `from` on.
fn run_end(s: &Vec<char>, from: usize) -> (r: usize)
    requires
        from <= s@.len(),
    ensures
        r == from + digit_run(s@, from as int),
        r <= s@.len(),
{
    let mut i: usize = from;
    while i < s.len() && '0' <= s[i] && s[i] <= '9'
        invariant
            from <= i <= s@.len(),
            digit_run(s@, from as int) == (i - from) + digit_run(s@, i as int),
        decreases s@.len() - i,
    {
        i = i + 1;
    }
    i
}

/// Where the digits and the point of `s` end.
fn mantissa_stop(s: &Vec<char>) -> (r: usize)
    ensures
        r == mantissa_end(s@),
{
    let whole = run_end(s, 0);
    if whole < s.len() && s[whole] == '.' {
        run_end(s, whole + 1)
    } else {
        whole
    }
}

/// Whether `s` is an unsigned decimal number.
pub fn check_float_literal(s: &Vec<char>) -> (r: bool)
    ensures
        r == is_float_literal(s@),
{
    proof {
        lemma_literal_parts(s@);
    }
    let whole = run_end(s, 0);
    let end = mantissa_stop(s);
    if end == whole {
        if whole == 0 {
            return false;
        }
    } else if end == 1 {
        return false;
    }
    if end == s.len() {
        return true;
    }
    let ghost t = s@.skip(end as int);
    if s.len() - end < 2 {
        return false;
    }
    if s[end] != 'e' && s[end] != 'E' {
        return false;
    }
    let first: usize = if s[end + 1] == '+' || s[end + 1] == '-' {
        end + 2
    } else {
        end + 1
    };
    let ghost d = exponent_digits(t);
    assert(d =~= s@.skip(first as int));
    let stop = run_end(s, first);
    proof {
        lemma_digit_run(s@, first as int);
        if stop == s@.len() {
            assert forall|i: int| 0 <= i < d.len() implies is_digit(#[trigger] d[i]) by {
                assert(d[i] == s@[first + i]);
            }
        } else {
            assert(d[stop - first] == s@[stop as int]);
        }
    }
    first < s.len() && stop == s.len()
}

/// An exponent beyond which only its sign matters.
const EXPONENT_CAP: i128 = 1_000_000_000_000_000_000_000_000_000_000;

/// The number that the digits of `s` from `from` on denote, or some number
/// not below the cap where they denote one not below it.
fn capped_value(s: &Vec<char>, from: usize) -> (r: i128)
    requires
        from <= s@.len(),
        all_digits(s@.skip(from as int)),
    ensures
        0 <= r <= 10 * EXPONENT_CAP + 9,
        r < EXPONENT_CAP ==> r == digits_value(s@.skip(from as int)),
        r >= EXPONENT_CAP ==> digits_value(s@.skip(from as int)) >= EXPONENT_CAP,
{
    let mut i: usize = from;
    let mut v: i128 = 0;
    let ghost d = s@.skip(from as int);
    assert(d.take(0) =~= Seq::<char>::empty());
    while i < s.len()
        invariant
            from <= i <= s@.len(),
            d == s@.skip(from as int),
            all_digits(d),
            0 <= v <= 10 * EXPONENT_CAP + 9,
            v < EXPONENT_CAP ==> v == digits_value(d.take(i - from)),
            v >= EXPONENT_CAP ==> digits_value(d.take(i - from)) >= EXPONENT_CAP,
        decreases s@.len() - i,
    {
        proof {
            assert(d[i - from] == s@[i as int]);
            assert(is_digit(d[i - from]));
            assert(d.take(i + 1 - from).drop_last() =~= d.take(i - from));
            assert(d.take(i + 1 - from).last() == s@[i as int]);
        }
        if v < EXPONENT_CAP {
            let digit: u8 = (s[i] as u8) - 48;
            v = v * 10 + digit as i128;
        }
        i = i + 1;
    }
    assert(d.take(d.len() as int) =~= d);
    v
}

/// Zero does not reach the bound, however it is scaled.
pub proof fn lemma_zero_stays(scale: int)
    ensures
        !reaches(0, scale, infinity_bound()),
{
    lemma_bound_range();
    let b = infinity_bound();
    if scale >= 0 {
        assert(0 * ten(scale as nat) == 0) by (nonlinear_arith);
    } else {
        lemma_ten_positive((-scale) as nat);
        let t = ten((-scale) as nat);
        assert(b * t > 0) by (nonlinear_arith)
            requires
                b > 0,
                t > 0,
        ;
    }
}

/// The digits of a literal from the first one that is not zero on.
pub(crate) fn significant_digits(s: &Vec<char>) -> (d: Vec<char>)
    ensures
        d@ == significant(s@),
{
    proof {
        lemma_literal_parts(s@);
    }
    let whole = run_end(s, 0);
    let end = mantissa_stop(s);
    let fraction_start: usize = if whole < s.len() && s[whole] == '.' {
        whole + 1
    } else {
        whole
    };
    let ghost all = mantissa(s@);
    let mut d: Vec<char> = Vec::new();
    let mut i: usize = 0;
    assert(all.take(0) =~= Seq::<char>::empty());
    while i < end
        invariant
            0 <= whole <= fraction_start <= end <= s@.len(),
            whole == whole_len(s@),
            end == mantissa_end(s@),
            fraction_start == mantissa_end(s@) - fraction_len(s@),
            fraction_start <= whole + 1,
            fraction_start == whole ==> end == whole,
            all == mantissa(s@),
            all.len() == whole + (end - fraction_start),
            i <= end,
            d@ == drop_leading(
                all.take(if i <= whole { i as int } else { i - (fraction_start - whole) }),
            ),
        decreases end - i,
    {
        let ghost k: int = if i <= whole { i as int } else { i - (fraction_start - whole) };
        if i < whole || i >= fraction_start {
            let c = s[i];
            proof {
                assert(all[k] == c) by {
                    if i >= whole {
                        assert(all[k] == s@.subrange(fraction_start as int, end as int)[k - whole]);
                    }
                }
                assert(all.take(k + 1) =~= all.take(k).push(c));
                lemma_drop_leading_push(all.take(k), c);
            }
            if d.len() > 0 || c != '0' {
                d.push(c);
            }
        }
        i = i + 1;
    }
    assert(all.take(all.len() as int) =~= all);
    d
}

/// How many of `digits` significant digits stand before the point, exact
/// where it matters.
pub(crate) fn point_of(s: &Vec<char>, digits: usize) -> (r: i128)
    requires
        is_float_literal(s@),
    ensures
        -400 <= r <= 400 ==> r == digits + literal_scale(s@),
        r < -400 <==> digits + literal_scale(s@) < -400,
        r > 400 <==> digits + literal_scale(s@) > 400,
{
    proof {
        lemma_literal_parts(s@);
    }
    let whole = run_end(s, 0);
    let end = mantissa_stop(s);
    let fraction: usize = if whole < s.len() && s[whole] == '.' {
        end - (whole + 1)
    } else {
        0
    };
    let ghost t = s@.skip(end as int);
    let exponent: i128 = if end == s.len() {
        assert(t =~= Seq::<char>::empty());
        0
    } else {
        if s[end + 1] == '+' || s[end + 1] == '-' {
            assert(exponent_digits(t) =~= s@.skip(end + 2));
            let v = capped_value(s, end + 2);
            if s[end + 1] == '-' {
                -v
            } else {
                v
            }
        } else {
            assert(exponent_digits(t) =~= s@.skip(end + 1));
            capped_value(s, end + 1)
        }
    };
    digits as i128 + exponent - fraction as i128
}

/// The literal in canonical form; nothing where its number rounds to
/// infinity.
pub fn canonical_literal(s: &Vec<char>) -> (r: Option<String>)
    requires
        is_float_literal(s@),
    ensures
        r is None <==> literal_overflows(s@),
        r matches Some(t) ==> t@ == canonical(s@),
{
    let digits = significant_digits(s);
    let point = point_of(s, digits.len());
    let ghost scale = literal_scale(s@);
    proof {
        lemma_literal_parts(s@);
        lemma_drop_leading(mantissa(s@));
        lemma_zero_stays(scale);
        reveal_strlit("0");
        assert("0"@ =~= seq!['0']);
    }
    if digits.len() == 0 {
        proof {
            if !literal_vanishes(s@) {
                lemma_stays_significant(s@);
            }
        }
        return Some(owned("0"));
    }
    if reaches_infinity(&digits, point, Ghost(scale)) {
        return None;
    }
    if !stays_above_zero(&digits, point, Ghost(scale)) {
        return Some(owned("0"));
    }
    proof {
        lemma_reaches(digits@, scale);
        lemma_stays(digits@, scale);
    }
    Some(write_positional(&digits, point))
}

/// Whether the number lies above zero.
pub fn check_positive(v: &Decimal) -> (r: bool)
    ensures
        r == v@.is_positive(),
{
    match v {
        Decimal::Finite { negative, literal } => {
            if *negative {
                return false;
            }
            let s = crate::text::chars_of(literal.as_str());
            has_nonzero_digit(&s)
        },
        Decimal::Infinite { negative } => !*negative,
        Decimal::NotANumber => false,
    }
}

/// Whether a digit other than zero stands before or behind the point.
fn has_nonzero_digit(s: &Vec<char>) -> (r: bool)
    ensures
        r == (digits_value(mantissa(s@)) > 0),
{
    proof {
        lemma_literal_parts(s@);
    }
    let end = mantissa_stop(s);
    let mut i: usize = 0;
    while i < end
        invariant
            end == mantissa_end(s@),
            end <= s@.len(),
            i <= end,
            forall|j: int| 0 <= j < i ==> s@[j] == '0' || s@[j] == '.',
        decreases end - i,
    {
        if s[i] != '0' && s[i] != '.' {
            proof {
                lemma_digit_outside_point(s@, i as int);
            }
            return true;
        }
        i = i + 1;
    }
    proof {
        let m = mantissa(s@);
        assert forall|k: int| 0 <= k < m.len() implies m[k] == '0' by {
            lemma_literal_parts(s@);
            assert(is_digit(m[k]));
            if k < whole_len(s@) {
                assert(m[k] == s@[k]);
            } else {
                let j = end - fraction_len(s@) + (k - whole_len(s@));
                assert(m[k] == s@[j]);
            }
        }
        lemma_all_zero(m);
    }
    false
}

/// A digit other than zero before the end of the mantissa makes the value
/// positive.
proof fn lemma_digit_outside_point(s: Seq<char>, i: int)
    requires
        0 <= i < mantissa_end(s),
        s[i] != '0',
        s[i] != '.',
    ensures
        digits_value(mantissa(s)) > 0,
{
    lemma_literal_parts(s);
    let m = mantissa(s);
    let k: int = if i < whole_len(s) {
        i
    } else {
        i - (mantissa_end(s) - fraction_len(s)) + whole_len(s)
    };
    assert(has_point(s) && i >= whole_len(s) ==> i != whole_len(s));
    assert(m[k] == s[i]);
    lemma_some_nonzero(m, k);
}

proof fn lemma_some_nonzero(m: Seq<char>, k: int)
    requires
        all_digits(m),
        0 <= k < m.len(),
        m[k] != '0',
    ensures
        digits_value(m) > 0,
    decreases m.len(),
{
    assert(is_digit(m[m.len() - 1]));
    if k < m.len() - 1 {
        let t = m.drop_last();
        assert forall|i: int| 0 <= i < t.len() implies is_digit(#[trigger] t[i]) by {
            assert(t[i] == m[i]);
        }
        assert(t[k] == m[k]);
        lemma_some_nonzero(t, k);
    } else {
        assert(digit_value(m.last()) > 0);
    }
}

proof fn lemma_all_zero(m: Seq<char>)
    requires
        forall|k: int| 0 <= k < m.len() ==> m[k] == '0',
    ensures
        digits_value(m) == 0,
    decreases m.len(),
{
    if m.len() > 0 {
        lemma_all_zero(m.drop_last());
    }
}

}
