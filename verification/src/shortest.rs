//! The digits that a double-precision float shows: as few as read back as the
//! same float, and among those the nearest to it.

use crate::bignum::{
    are_places, exact_places, lemma_bound_range, lemma_reaches, lemma_stays, places_value,
};
use crate::canonical::{
    canonical, drop_trailing, kept_digits, lemma_drop_leading, lemma_drop_trailing, lemma_number,
    lemma_pointed, lemma_positional, lemma_stays_significant, lemma_zero, literal_vanishes,
    point_place, pointed, positional, significant, write_positional, zeros,
};
use crate::decimal::{
    canonical_literal, is_float_literal, lemma_literal_parts, literal_overflows, literal_scale,
    mantissa, point_of, significant_digits,
};
use crate::digits::{
    all_digits, digit_char, digit_value, digits_value, is_digit, lemma_digits_at_least,
    lemma_digits_bound, lemma_nat_text, lemma_ten_adds, lemma_ten_below_two, lemma_ten_grows,
    lemma_ten_positive, lemma_two_adds, lemma_two_below_ten, lemma_two_grows, lemma_two_positive,
    nat_text, ten, two, write_nat,
};
use crate::quotient::{lemma_powers, nearest_even};
use crate::rounding::{
    exponent_of, five, is_float, is_number, law_nearest_floats_overflow, law_nearest_floats_vanish,
    lemma_exponent_above, lemma_exponent_below, lemma_five_positive, lemma_nearest_shifted,
    lemma_number_bounds, lemma_part_places, lemma_places_divided, lemma_places_split,
    lemma_quotient_bounds, lemma_same_ratio, lemma_two_five, lemma_units_den, lower_half,
    multiply_by_fives, multiply_by_twos, nearest, nearest_float, nearest_ratio, units_den,
    units_num, Half, MANTISSA_LIMIT,
};
use crate::text::chars_of;
use vstd::arithmetic::div_mod::lemma_fundamental_div_mod_converse;
use vstd::prelude::*;

verus! {

/// The digits of a float in full: the float is this number times 10^-1074.
pub open spec fn full_digits(float: (nat, nat)) -> nat {
    float.0 * two(float.1) * five(1074)
}

/// The shortest digits from `n` on that read back as the float, with their
/// scale. Of two numbers of as many digits, one below the float and one above,
/// the nearer one is taken, and the upper one where both are as near.
pub open spec fn shortest_from(float: (nat, nat), n: nat) -> (nat, int)
    decreases nat_text(full_digits(float)).len() - n,
{
    let full = full_digits(float);
    let count = nat_text(full).len();
    if n >= count {
        (full, -1074)
    } else {
        let dropped = (count - n) as nat;
        let scale = dropped - 1074;
        let low = full / ten(dropped);
        let high_is_near = 2 * (full % ten(dropped)) >= ten(dropped);
        let low_reads_back = nearest(low, scale) == float;
        let high_reads_back = nearest(low + 1, scale) == float;
        if low_reads_back && !(high_is_near && high_reads_back) {
            (low, scale)
        } else if high_reads_back {
            (low + 1, scale)
        } else {
            shortest_from(float, n + 1)
        }
    }
}

/// The digits that a float shows, with their scale.
pub open spec fn shortest(float: (nat, nat)) -> (nat, int) {
    shortest_from(float, 1)
}

/// The float nearest to the number of a literal.
pub open spec fn literal_float(s: Seq<char>) -> (nat, nat) {
    nearest(digits_value(mantissa(s)), literal_scale(s))
}

/// The digits of a float in their places.
pub open spec fn float_digits_text(float: (nat, nat)) -> Seq<char> {
    let (digits, scale) = shortest(float);
    positional(nat_text(digits), nat_text(digits).len() + scale)
}

/// What the float nearest to a literal shows.
pub open spec fn float_form(s: Seq<char>) -> Seq<char> {
    if literal_vanishes(s) {
        seq!['0']
    } else {
        float_digits_text(literal_float(s))
    }
}

/// A literal of at most fifteen digits in the middle of the range.
pub open spec fn is_short(s: Seq<char>) -> bool {
    drop_trailing(significant(s)).len() <= 15 && -300 < point_place(s) <= 300
}

// ---------------------------------------------------------------------------
// Reading back
// ---------------------------------------------------------------------------

/// The full digits of a float are read back as the float.
proof fn lemma_full_digits(float: (nat, nat))
    requires
        is_float(float),
    ensures
        nearest(full_digits(float), -1074) == float,
{
    let (f, e) = float;
    let p = two(e);
    let w = two(1074);
    let v = five(1074);
    let g = f * p;
    let c = ten(1074);
    lemma_powers();
    lemma_two_positive(e);
    lemma_two_five(1074);
    lemma_ten_positive(1074);
    assert((f * p * v) * w == g * c) by (nonlinear_arith)
        requires
            g == f * p,
            w * v == c,
    ;
    assert(1 * c == c) by (nonlinear_arith);
    lemma_same_ratio(g, 1, c);
    lemma_two_adds(53, e);
    lemma_two_adds(52, e);
    assert(g < two(53) * p) by (nonlinear_arith)
        requires
            g == f * p,
            f < two(53),
            p >= 1,
    ;
    lemma_exponent_below(g, e);
    if e > 0 {
        assert(g >= two(52) * p) by (nonlinear_arith)
            requires
                g == f * p,
                f >= two(52),
        ;
        lemma_exponent_above(g, e);
    }
    assert(g / 1 == g) by (nonlinear_arith);
    assert(1 * p == p) by (nonlinear_arith);
    lemma_fundamental_div_mod_converse(g as int, p as int, f as int, 0);
}

/// The shortest digits are read back as the float.
pub proof fn law_shortest_digits_are_read_back(float: (nat, nat), n: nat)
    requires
        is_float(float),
    ensures
        nearest(shortest_from(float, n).0, shortest_from(float, n).1) == float,
    decreases nat_text(full_digits(float)).len() - n,
{
    if n >= nat_text(full_digits(float)).len() {
        lemma_full_digits(float);
    } else {
        law_shortest_digits_are_read_back(float, n + 1);
    }
}

/// A number above zero is written without a leading zero.
proof fn lemma_nat_text_head(v: nat)
    requires
        v > 0,
    ensures
        nat_text(v)[0] != '0',
        nat_text(v).len() > 0,
    decreases v,
{
    lemma_nat_text(v);
    if v >= 10 {
        lemma_nat_text_head(v / 10);
        lemma_nat_text(v / 10);
        assert(nat_text(v)[0] == nat_text(v / 10)[0]);
    }
}

/// Literals with the same significant digits, up to trailing zeros, and the
/// same point place have the same nearest float.
proof fn lemma_same_float(s: Seq<char>, c: Seq<char>)
    requires
        is_float_literal(s),
        is_float_literal(c),
        drop_trailing(significant(c)) == drop_trailing(significant(s)),
        point_place(c) == point_place(s),
    ensures
        literal_float(c) == literal_float(s),
{
    lemma_number(s);
    lemma_number(c);
    let t = drop_trailing(significant(s));
    let v = digits_value(t);
    let e = point_place(s) - t.len();
    lemma_nearest_shifted(v, (significant(s).len() - t.len()) as nat, e);
    lemma_nearest_shifted(v, (significant(c).len() - t.len()) as nat, e);
}

/// The digits of a float in their places are a literal of this float.
proof fn lemma_float_digits(float: (nat, nat))
    requires
        is_float(float),
        0 < float.0,
        float.1 <= 2045,
    ensures
        ({
            let t = float_digits_text(float);
            &&& is_float_literal(t)
            &&& literal_float(t) == float
            &&& canonical(t) == t
            &&& !literal_overflows(t)
            &&& !literal_vanishes(t)
        }),
{
    let (d, p) = shortest(float);
    let sig = nat_text(d);
    let point = sig.len() + p;
    let t = float_digits_text(float);
    law_shortest_digits_are_read_back(float, 1);
    law_nearest_floats_vanish(d, p);
    assert(d > 0) by {
        if d == 0 {
            assert(0 * two(1075) == 0) by (nonlinear_arith);
        }
    }
    lemma_nat_text(d);
    lemma_nat_text_head(d);
    lemma_positional(sig, point);
    lemma_number(t);
    lemma_drop_trailing(sig);
    let k = drop_trailing(sig);
    let v = digits_value(k);
    let e = point - k.len();
    lemma_nearest_shifted(v, (sig.len() - k.len()) as nat, e);
    lemma_nearest_shifted(v, (significant(t).len() - k.len()) as nat, e);
    law_nearest_floats_overflow(digits_value(mantissa(t)), literal_scale(t));
    law_nearest_floats_vanish(digits_value(mantissa(t)), literal_scale(t));
}

/// What a float shows is a literal in canonical form that is finite, shows
/// itself and has the same nearest float.
pub proof fn law_float_form_is_stable(s: Seq<char>)
    requires
        is_float_literal(s),
        !literal_overflows(s),
    ensures
        is_float_literal(float_form(s)),
        canonical(float_form(s)) == float_form(s),
        float_form(float_form(s)) == float_form(s),
        !literal_overflows(float_form(s)),
        literal_float(float_form(s)) == literal_float(s),
{
    let r = float_form(s);
    law_nearest_floats_vanish(digits_value(mantissa(s)), literal_scale(s));
    law_nearest_floats_overflow(digits_value(mantissa(s)), literal_scale(s));
    if literal_vanishes(s) {
        lemma_zero();
        law_nearest_floats_vanish(digits_value(mantissa(r)), literal_scale(r));
        assert(0 * two(1075) == 0) by (nonlinear_arith);
    } else {
        lemma_float_digits(literal_float(s));
    }
}

/// Literals of the same float show the same.
pub proof fn law_equal_floats_show_the_same(s: Seq<char>, other: Seq<char>)
    requires
        literal_float(s) == literal_float(other),
    ensures
        float_form(s) == float_form(other),
{
    law_nearest_floats_vanish(digits_value(mantissa(s)), literal_scale(s));
    law_nearest_floats_vanish(digits_value(mantissa(other)), literal_scale(other));
}

/// Literals with the same significant digits, up to trailing zeros, and the
/// same point place show the same.
pub proof fn lemma_same_form(s: Seq<char>, c: Seq<char>)
    requires
        is_float_literal(s),
        is_float_literal(c),
        drop_trailing(significant(c)) == drop_trailing(significant(s)),
        point_place(c) == point_place(s),
    ensures
        float_form(c) == float_form(s),
{
    lemma_same_float(s, c);
    law_equal_floats_show_the_same(s, c);
}

/// Zero shows `0`.
pub proof fn lemma_zero_form()
    ensures
        float_form(seq!['0']) == seq!['0'],
{
    lemma_zero();
    assert(0 * two(1075) == 0) by (nonlinear_arith);
}

// ---------------------------------------------------------------------------
// Short literals
// ---------------------------------------------------------------------------

/// The nearest float is at most half of its last place away.
proof fn lemma_nearest_error(num: nat, den: nat)
    requires
        den > 0,
    ensures
        ({
            let (f, e) = nearest_ratio(num, den);
            let unit = two(e) * den;
            &&& 2 * num <= 2 * (f * unit) + unit
            &&& 2 * (f * unit) <= 2 * num + unit
        }),
{
    let e = exponent_of(num / den);
    let p = two(e);
    lemma_two_positive(e);
    let step = den * p;
    assert(step > 0) by (nonlinear_arith)
        requires
            den > 0,
            p > 0,
            step == den * p,
    ;
    let whole = num / step;
    let rest = num % step;
    assert(num == whole * step + rest && rest < step) by (nonlinear_arith)
        requires
            whole == num / step,
            rest == num % step,
            step > 0,
    ;
    let f = nearest_even(num, step);
    assert((whole + 1) * step == whole * step + step) by (nonlinear_arith);
    assert(2 * num <= 2 * (f * step) + step && 2 * (f * step) <= 2 * num + step);
    if f == MANTISSA_LIMIT {
        let half = (MANTISSA_LIMIT / 2) as nat;
        let wide = two(e + 1) * den;
        assert(two(e + 1) == 2 * p);
        assert(half * wide == f * step) by (nonlinear_arith)
            requires
                f == 2 * half,
                wide == (2 * p) * den,
                step == den * p,
        ;
        assert(wide == 2 * step) by (nonlinear_arith)
            requires
                wide == (2 * p) * den,
                step == den * p,
        ;
    } else {
        assert(two(e) * den == step) by (nonlinear_arith)
            requires
                step == den * p,
                p == two(e),
        ;
    }
}

/// A number at a scale is so many times one at that scale.
proof fn lemma_units(m: nat, scale: int)
    ensures
        units_num(m, scale) == m * units_num(1, scale),
        units_num(1, scale) > 0,
{
    let w = two(1074);
    lemma_two_positive(1074);
    if scale >= 0 {
        let p = ten(scale as nat);
        lemma_ten_positive(scale as nat);
        assert(m * p * w == m * (1 * p * w)) by (nonlinear_arith);
        assert(1 * p * w > 0) by (nonlinear_arith)
            requires
                p > 0,
                w > 0,
        ;
    } else {
        assert(m * w == m * (1 * w)) by (nonlinear_arith);
        assert(1 * w == w) by (nonlinear_arith);
    }
}

/// How the last place of the nearest float stands to a number of few digits:
/// it is less than one of them.
proof fn lemma_last_place(a: nat, scale: int)
    requires
        a < 1_000_000_000_000_000,
        nearest(a, scale).1 > 0,
    ensures
        ({
            let (f, e) = nearest(a, scale);
            let unit = two(e) * units_den(scale);
            let u = units_num(1, scale);
            &&& unit > 0
            &&& 4 * unit < u
            &&& 2 * (a * u) <= 2 * (f * unit) + unit
            &&& 2 * (f * unit) <= 2 * (a * u) + unit
        }),
{
    let (f, e) = nearest(a, scale);
    let den = units_den(scale);
    let unit = two(e) * den;
    let u = units_num(1, scale);
    lemma_units_den(scale);
    lemma_two_positive(e);
    lemma_units(a, scale);
    lemma_nearest_error(units_num(a, scale), den);
    law_nearest_floats_vanish(a, scale);
    assert(unit > 0) by (nonlinear_arith)
        requires
            unit == two(e) * den,
            two(e) > 0,
            den > 0,
    ;
    assert(f >= 0x10_0000_0000_0000);
    let x = f * unit;
    let y = a * u;
    assert(x >= 0x10_0000_0000_0000 * unit) by (nonlinear_arith)
        requires
            x == f * unit,
            f >= 0x10_0000_0000_0000,
    ;
    assert(y <= 1_000_000_000_000_000 * u) by (nonlinear_arith)
        requires
            y == a * u,
            a <= 1_000_000_000_000_000,
    ;
}

/// A number of few digits is the only one at its scale with its nearest float.
proof fn lemma_few_digits(a: nat, b: nat, scale: int)
    requires
        a < 1_000_000_000_000_000,
        nearest(a, scale) == nearest(b, scale),
        nearest(a, scale).1 > 0,
    ensures
        a == b,
{
    let (f, e) = nearest(a, scale);
    let den = units_den(scale);
    let unit = two(e) * den;
    let u = units_num(1, scale);
    lemma_units_den(scale);
    lemma_last_place(a, scale);
    lemma_units(b, scale);
    lemma_nearest_error(units_num(b, scale), den);
    if a < b {
        assert(b * u >= a * u + u) by (nonlinear_arith)
            requires
                b >= a + 1,
        ;
    } else if b < a {
        assert(a * u >= b * u + u) by (nonlinear_arith)
            requires
                a >= b + 1,
        ;
    }
}

/// The full digits of the nearest float stand next to a number of few digits.
proof fn lemma_full_digits_near(a: nat, dropped: nat)
    requires
        0 < a < 1_000_000_000_000_000,
        nearest(a, dropped - 1074).1 > 0,
    ensures
        ({
            let full = full_digits(nearest(a, dropped - 1074));
            &&& (a - 1) * ten(dropped) < full
            &&& full < (a + 1) * ten(dropped)
        }),
{
    let scale = dropped - 1074;
    let (f, e) = nearest(a, scale);
    let p = two(e);
    let den = units_den(scale);
    let unit = p * den;
    let u = units_num(1, scale);
    let v = five(1074);
    let w = two(1074);
    let t = ten(dropped);
    lemma_last_place(a, scale);
    lemma_units_den(scale);
    lemma_two_five(1074);
    lemma_five_positive(1074);
    assert(u * v == den * t) by {
        if scale >= 0 {
            let q = ten(scale as nat);
            lemma_ten_adds(scale as nat, 1074);
            assert((1 * q * w) * v == q * (w * v)) by (nonlinear_arith);
            assert(1 * t == t) by (nonlinear_arith);
        } else {
            lemma_ten_adds((-scale) as nat, dropped);
            assert((1 * w) * v == w * v) by (nonlinear_arith);
        }
    }
    let x = f * unit;
    let full = f * p * v;
    assert(x * v == full * den) by (nonlinear_arith)
        requires
            x == f * (p * den),
            full == f * p * v,
    ;
    let below = (a - 1) as nat;
    assert(below * u + u == a * u) by (nonlinear_arith)
        requires
            below + 1 == a,
    ;
    assert((a + 1) * u == a * u + u) by (nonlinear_arith);
    assert(below * u < x && x < (a + 1) * u);
    assert((below * t) * den < full * den) by (nonlinear_arith)
        requires
            below * u < x,
            v >= 1,
            u * v == den * t,
            x * v == full * den,
    {
        assert((below * u) * v < x * v);
        assert((below * u) * v == below * (u * v));
        assert(below * (den * t) == (below * t) * den);
    }
    let above = a + 1;
    assert(full * den < (above * t) * den) by (nonlinear_arith)
        requires
            x < above * u,
            v >= 1,
            u * v == den * t,
            x * v == full * den,
    {
        assert(x * v < (above * u) * v);
        assert((above * u) * v == above * (u * v));
        assert(above * (den * t) == (above * t) * den);
    }
    assert(below * t < full) by (nonlinear_arith)
        requires
            (below * t) * den < full * den,
            den >= 1,
    ;
    assert(full < above * t) by (nonlinear_arith)
        requires
            full * den < (above * t) * den,
            den >= 1,
    ;
}

/// The search finds a number of few digits, written with as many or fewer.
#[verifier::spinoff_prover]
proof fn lemma_search_stops(a: nat, dropped: nat, n: nat)
    requires
        0 < a < 1_000_000_000_000_000,
        nearest(a, dropped - 1074).1 > 0,
        n + dropped <= nat_text(full_digits(nearest(a, dropped - 1074))).len(),
        dropped > 0,
    ensures
        ({
            let (d, scale) = shortest_from(nearest(a, dropped - 1074), n);
            &&& scale >= dropped - 1074
            &&& a == d * ten((scale - (dropped - 1074)) as nat)
        }),
    decreases nat_text(full_digits(nearest(a, dropped - 1074))).len() - n,
{
    let float = nearest(a, dropped - 1074);
    let full = full_digits(float);
    let count = nat_text(full).len();
    let here = (count - n) as nat;
    let more = (here - dropped) as nat;
    let low = full / ten(here);
    let (d, scale) = shortest_from(float, n);
    law_nearest_floats_vanish(a, dropped - 1074);
    if nearest(low, here - 1074) == float || nearest(low + 1, here - 1074) == float {
        assert(nearest(d, scale) == float);
        assert(scale == here - 1074);
        lemma_nearest_shifted(d, more, scale);
        lemma_few_digits(a, d * ten(more), dropped - 1074);
    } else if here > dropped {
        lemma_search_stops(a, dropped, n + 1);
    } else {
        lemma_full_digits_near(a, dropped);
        lemma_ten_positive(dropped);
        lemma_quotient_bounds(full, ten(dropped), (a - 1) as nat, a + 1);
        assert(low == a || low + 1 == a);
        assert(false);
    }
}

/// Zeros behind a number.
proof fn lemma_nat_text_shifted(v: nat, j: nat)
    requires
        v > 0,
    ensures
        nat_text(v * ten(j)) == nat_text(v) + zeros(j),
    decreases j,
{
    if j == 0 {
        let one = ten(0);
        assert(v * one == v) by (nonlinear_arith)
            requires
                one == 1,
        ;
        assert(nat_text(v) + zeros(0) =~= nat_text(v));
    } else {
        let i = (j - 1) as nat;
        lemma_nat_text_shifted(v, i);
        lemma_ten_positive(i);
        let p = ten(i);
        let x = v * p;
        assert(v * (10 * p) == 10 * x) by (nonlinear_arith)
            requires
                x == v * p,
        ;
        assert(x >= 1) by (nonlinear_arith)
            requires
                x == v * p,
                v >= 1,
                p >= 1,
        ;
        assert((10 * x) / 10 == x && (10 * x) % 10 == 0);
        assert(digit_char(0) == '0');
        assert((nat_text(v) + zeros(i)).push('0') =~= nat_text(v) + zeros(j));
    }
}

/// Digits without a leading zero write the number that they denote.
proof fn lemma_nat_text_of_digits(d: Seq<char>)
    requires
        d.len() > 0,
        all_digits(d),
        d[0] != '0',
    ensures
        nat_text(digits_value(d)) == d,
        digits_value(d) > 0,
    decreases d.len(),
{
    let c = d.last();
    assert(is_digit(d[d.len() - 1]));
    assert(digit_char(digit_value(c)) == c);
    if d.len() == 1 {
        assert(d.drop_last().len() == 0);
        assert(digits_value(d.drop_last()) == 0);
        assert(digits_value(d) == digit_value(c));
        assert(nat_text(digits_value(d)) =~= d);
    } else {
        let rest = d.drop_last();
        assert forall|i: int| 0 <= i < rest.len() implies is_digit(#[trigger] rest[i]) by {
            assert(rest[i] == d[i]);
        }
        lemma_nat_text_of_digits(rest);
        let v = digits_value(rest);
        assert((10 * v + digit_value(c)) / 10 == v);
        assert((10 * v + digit_value(c)) % 10 == digit_value(c));
        assert(rest.push(c) =~= d);
    }
}

/// A zero behind the digits does not change where they stand.
proof fn lemma_positional_push(sig: Seq<char>, point: int)
    requires
        sig.len() > 0,
    ensures
        positional(sig.push('0'), point) == positional(sig, point),
{
    let long = sig.push('0');
    if point <= 0 {
        let n = (-point) as nat;
        assert((zeros(n) + long).drop_last() =~= zeros(n) + sig);
        assert((zeros(n) + long).last() == '0');
    } else if point < sig.len() {
        assert(long.take(point) =~= sig.take(point));
        assert(long.skip(point).drop_last() =~= sig.skip(point));
        assert(long.skip(point).last() == '0');
    } else if point == sig.len() {
        assert(long.take(point) =~= sig.take(point));
        assert(long.skip(point) =~= seq!['0']);
        reveal_with_fuel(drop_trailing, 2);
        assert(seq!['0'].drop_last() =~= Seq::<char>::empty());
        assert(drop_trailing(seq!['0']) =~= Seq::<char>::empty());
    } else {
        let k = (point - sig.len()) as nat;
        assert(long + zeros((k - 1) as nat) =~= sig + zeros(k));
        if point == long.len() {
            assert(long.take(point) =~= sig + zeros(k));
        }
    }
}

/// Trailing zeros do not change where digits stand.
proof fn lemma_positional_trailing(sig: Seq<char>, point: int)
    requires
        sig.len() > 0,
        sig[0] != '0',
    ensures
        positional(drop_trailing(sig), point) == positional(sig, point),
    decreases sig.len(),
{
    if sig.last() == '0' {
        let rest = sig.drop_last();
        assert(rest.len() > 0);
        assert(rest[0] == sig[0]);
        assert(rest.push('0') =~= sig);
        lemma_positional_push(rest, point);
        lemma_positional_trailing(rest, point);
    }
}

/// Up to fifteen digits, filled up to fifteen.
proof fn lemma_filled_digits(t: Seq<char>)
    requires
        0 < t.len() <= 15,
        all_digits(t),
        t[0] != '0',
    ensures
        ten(14) <= digits_value(t) * ten((15 - t.len()) as nat) < 1_000_000_000_000_000,
        digits_value(t) > 0,
        nat_text(digits_value(t)) == t,
{
    let v = digits_value(t);
    let fill = (15 - t.len()) as nat;
    let a = v * ten(fill);
    lemma_nat_text_of_digits(t);
    lemma_digits_bound(t);
    lemma_digits_at_least(t);
    lemma_ten_adds(t.len(), fill);
    lemma_ten_adds((t.len() - 1) as nat, fill);
    lemma_ten_positive(fill);
    assert(ten(15) == 1_000_000_000_000_000) by {
        reveal_with_fuel(ten, 16);
    }
    assert(a < ten(15)) by (nonlinear_arith)
        requires
            a == v * ten(fill),
            v < ten(t.len()),
            ten(15) == ten(t.len()) * ten(fill),
            ten(fill) >= 1,
    ;
    assert(a >= ten(14)) by (nonlinear_arith)
        requires
            a == v * ten(fill),
            v >= ten((t.len() - 1) as nat),
            ten(14) == ten((t.len() - 1) as nat) * ten(fill),
    ;
}

/// The nearest float of up to fifteen digits shows them in their places.
#[verifier::spinoff_prover]
proof fn lemma_digits_show(t: Seq<char>, point: int)
    requires
        0 < t.len() <= 15,
        all_digits(t),
        t[0] != '0',
        -300 < point,
    ensures
        float_digits_text(nearest(digits_value(t), point - t.len())) == positional(t, point),
{
    let v = digits_value(t);
    let fill = (15 - t.len()) as nat;
    let a = v * ten(fill);
    let scale = point - 15;
    let dropped = (scale + 1074) as nat;
    lemma_filled_digits(t);
    lemma_nearest_shifted(v, fill, point - t.len());
    let float = nearest(a, scale);
    assert(ten(14) > 0) by {
        lemma_ten_positive(14);
    }
    lemma_middle_exponent(a, scale);
    lemma_full_digits_near(a, dropped);
    lemma_many_digits(full_digits(float), a, dropped);
    lemma_search_stops(a, dropped, 1);
    let (d, found) = shortest(float);
    let more = (found - scale) as nat;
    assert(d > 0) by {
        if d == 0 {
            assert(0 * ten(more) == 0) by (nonlinear_arith);
        }
    }
    lemma_nat_text_shifted(d, more);
    lemma_nat_text_shifted(v, fill);
    let shown = nat_text(d);
    assert(shown + zeros(more) == t + zeros(fill));
    lemma_filled_in_place(shown, more, t, fill, point);
    assert(shown.len() + found == point);
}

/// Digits that are equal with zeros behind them stand in the same places.
proof fn lemma_filled_in_place(a: Seq<char>, i: nat, b: Seq<char>, j: nat, point: int)
    requires
        a.len() > 0,
        b.len() > 0,
        b[0] != '0',
        a + zeros(i) == b + zeros(j),
    ensures
        positional(a, point) == positional(b, point),
        a.len() + i == b.len() + j,
{
    let left = a + zeros(i);
    let right = b + zeros(j);
    assert(left.len() == a.len() + i && left[0] == a[0]);
    assert(right.len() == b.len() + j && right[0] == b[0]);
    lemma_same_digits(a, i, b, j);
    lemma_positional_trailing(a, point);
    lemma_positional_trailing(b, point);
}

/// A short literal shows itself, in canonical form.
pub proof fn law_short_literals_show_themselves(s: Seq<char>)
    requires
        is_float_literal(s),
        !literal_vanishes(s),
        is_short(s),
    ensures
        float_form(s) == canonical(s),
{
    let sig = significant(s);
    let point = point_place(s);
    let t = drop_trailing(sig);
    lemma_number(s);
    lemma_stays_significant(s);
    lemma_drop_trailing(sig);
    assert(t[0] == sig[0]);
    lemma_nearest_shifted(
        digits_value(t),
        (sig.len() - t.len()) as nat,
        point - t.len(),
    );
    lemma_digits_show(t, point);
    lemma_positional_trailing(sig, point);
}

/// Digits that are equal with zeros behind them are equal without.
proof fn lemma_same_digits(a: Seq<char>, i: nat, b: Seq<char>, j: nat)
    requires
        a + zeros(i) == b + zeros(j),
    ensures
        drop_trailing(a) == drop_trailing(b),
    decreases i + j, j,
{
    if i > 0 {
        let all = a + zeros(i);
        if j > 0 {
            assert((b + zeros(j)).drop_last() =~= b + zeros((j - 1) as nat));
            assert(all.drop_last() =~= a + zeros((i - 1) as nat));
            lemma_same_digits(a, (i - 1) as nat, b, (j - 1) as nat);
        } else {
            assert(b + zeros(0) =~= b);
            assert(b.last() == '0');
            assert(b.drop_last() =~= a + zeros((i - 1) as nat));
            assert(b.drop_last() + zeros(0) =~= b.drop_last());
            lemma_same_digits(a, (i - 1) as nat, b.drop_last(), 0);
        }
    } else if j > 0 {
        lemma_same_digits(b, j, a, i);
    } else {
        assert(a + zeros(0) =~= a);
        assert(b + zeros(0) =~= b);
    }
}

/// In the middle of the range floats have all of their binary digits.
proof fn lemma_middle_exponent(a: nat, scale: int)
    requires
        a >= ten(14),
        scale > -315,
    ensures
        nearest(a, scale).1 > 0,
{
    let num = units_num(a, scale);
    let den = units_den(scale);
    lemma_powers();
    lemma_two_positive(1074);
    lemma_units_den(scale);
    lemma_ten_positive(14);
    lemma_ten_below_two(100);
    lemma_two_adds(1000, 74);
    lemma_two_grows(53, 74);
    let w = two(1074);
    let p = ten(14);
    assert(num >= two(53) * den) by {
        if scale >= 0 {
            let t = ten(scale as nat);
            lemma_ten_positive(scale as nat);
            lemma_two_grows(53, 1074);
            assert(a * t * w >= w) by (nonlinear_arith)
                requires
                    a >= 1,
                    t >= 1,
                    w >= 0,
            ;
            assert(two(53) * 1 == two(53)) by (nonlinear_arith);
        } else {
            lemma_ten_grows((-scale) as nat, 314);
            lemma_ten_adds(14, 300);
            let q = ten(300);
            assert(a * w >= p * w) by (nonlinear_arith)
                requires
                    a >= p,
                    w >= 0,
            ;
            assert(p * w >= two(53) * (p * q)) by (nonlinear_arith)
                requires
                    w == two(1000) * two(74),
                    q <= two(1000),
                    two(53) <= two(74),
                    p >= 1,
            {
                assert(two(1000) * two(74) >= q * two(53));
                assert(p * (q * two(53)) == two(53) * (p * q));
            }
            assert(two(53) * (p * q) >= two(53) * den) by (nonlinear_arith)
                requires
                    p * q >= den,
            ;
        }
    }
    lemma_quotient_bounds(num, den, two(53), 0);
    lemma_exponent_above(num / den, 1);
}

/// A number above another one with so many zeros behind it has more digits.
proof fn lemma_many_digits(full: nat, a: nat, dropped: nat)
    requires
        a >= ten(14),
        (a - 1) * ten(dropped) < full,
    ensures
        1 + dropped <= nat_text(full).len(),
{
    lemma_nat_text(full);
    lemma_digits_bound(nat_text(full));
    assert(ten(14) == 100_000_000_000_000) by {
        reveal_with_fuel(ten, 15);
    }
    let t = ten(dropped);
    let b = (a - 1) as nat;
    assert(b * t >= t) by (nonlinear_arith)
        requires
            b >= 1,
    ;
    if nat_text(full).len() <= dropped {
        lemma_ten_grows(nat_text(full).len(), dropped);
    }
}

// ---------------------------------------------------------------------------
// Searching
// ---------------------------------------------------------------------------

/// Places as text, the most significant one first.
pub open spec fn places_text(s: Seq<u8>) -> Seq<char> {
    Seq::new(s.len(), |i: int| digit_char(s[s.len() - 1 - i] as nat))
}

/// A number is written with its places.
proof fn lemma_places_text(s: Seq<u8>)
    requires
        is_number(s),
    ensures
        nat_text(places_value(s)) == places_text(s),
    decreases s.len(),
{
    let v = places_value(s);
    lemma_number_bounds(s);
    lemma_places_divided(s, 1);
    lemma_part_places(s, 1);
    assert(ten(1) == 10) by {
        reveal_with_fuel(ten, 2);
    }
    assert(s.take(1) =~= seq![s[0]]);
    assert(places_value(seq![s[0]]) == s[0]) by {
        reveal_with_fuel(places_value, 2);
        let d = s[0] as nat;
        assert(seq![s[0]].drop_last() =~= Seq::<u8>::empty());
        assert(d * 1 == d) by (nonlinear_arith);
    }
    if s.len() == 1 {
        assert(s =~= seq![s[0]]);
        assert(nat_text(v) =~= places_text(s));
    } else {
        lemma_ten_grows(1, (s.len() - 1) as nat);
        let upper = s.skip(1);
        assert(upper.last() == s.last());
        lemma_places_text(upper);
        assert(places_text(s) =~= places_text(upper).push(digit_char(s[0] as nat)));
    }
}

/// The places of a number above zero.
fn places_of_nat(x: u64) -> (v: Vec<u8>)
    requires
        x > 0,
    ensures
        is_number(v@),
        places_value(v@) == x,
{
    let mut v: Vec<u8> = Vec::new();
    let mut rest: u64 = x;
    assert(rest as nat * 1 == rest) by (nonlinear_arith);
    while rest > 0
        invariant
            are_places(v@),
            rest > 0 || (v@.len() > 0 && v@.last() > 0),
            places_value(v@) + rest as nat * ten(v@.len()) == x,
        decreases rest,
    {
        let ghost before = v@;
        let low: u8 = (rest % 10) as u8;
        v.push(low);
        proof {
            assert(v@.drop_last() =~= before);
            let p = ten(before.len());
            let l = low as nat;
            let h = (rest / 10) as nat;
            let r = rest as nat;
            assert(l * p + h * (10 * p) == r * p) by (nonlinear_arith)
                requires
                    l + 10 * h == r,
            ;
            assert(ten(v@.len()) == 10 * p);
        }
        rest = rest / 10;
    }
    assert(0 * ten(v@.len()) == 0) by (nonlinear_arith);
    v
}

/// The places from an index on.
fn upper_places(v: &Vec<u8>, from: usize) -> (r: Vec<u8>)
    requires
        from < v@.len(),
        is_number(v@),
    ensures
        r@ == v@.skip(from as int),
        is_number(r@),
        places_value(r@) == places_value(v@) / ten(from as nat),
{
    let mut r: Vec<u8> = Vec::new();
    let n: usize = v.len();
    assert(r@ =~= v@.subrange(from as int, from as int));
    for i in from..n
        invariant
            n == v@.len(),
            from <= n,
            r@ == v@.subrange(from as int, i as int),
    {
        r.push(v[i]);
        assert(r@ =~= v@.subrange(from as int, i + 1));
    }
    proof {
        assert(r@ =~= v@.skip(from as int));
        lemma_part_places(v@, from as int);
        lemma_places_divided(v@, from as nat);
        assert(r@.last() == v@.last());
    }
    r
}

/// The number above.
fn next_number(v: Vec<u8>) -> (r: Vec<u8>)
    requires
        is_number(v@),
    ensures
        is_number(r@),
        places_value(r@) == places_value(v@) + 1,
        v@.len() <= r@.len() <= v@.len() + 1,
{
    let mut r = v;
    let ghost before = r@;
    let n: usize = r.len();
    let mut i: usize = 0;
    assert(r@.take(0) =~= before.take(0));
    while i < n && r[i] == 9
        invariant
            i <= n,
            n == r@.len(),
            n == before.len(),
            are_places(r@),
            are_places(before),
            forall|j: int| i <= j < n ==> r@[j] == before[j],
            places_value(r@.take(i as int)) + ten(i as nat) == places_value(before.take(i as int))
                + 1,
        decreases n - i,
    {
        let ghost old_r = r@;
        r[i] = 0;
        proof {
            let p = ten(i as nat);
            assert(r@.take(i + 1).drop_last() =~= old_r.take(i as int));
            assert(before.take(i + 1).drop_last() =~= before.take(i as int));
            assert(r@.take(i + 1).last() == 0);
            assert(before.take(i + 1).last() == 9);
            assert(ten((i + 1) as nat) == 10 * p);
            assert(0 * p == 0) by (nonlinear_arith);
        }
        i = i + 1;
    }
    assert(before.take(n as int) =~= before);
    if i == n {
        let ghost short = r@;
        assert(short.take(n as int) =~= short);
        r.push(1);
        proof {
            assert(r@.drop_last() =~= short);
            let p = ten(n as nat);
            assert(1 * p == p) by (nonlinear_arith);
        }
    } else {
        let ghost old_r = r@;
        let d: u8 = r[i];
        assert(before[i as int] <= 9);
        r[i] = d + 1;
        proof {
            lemma_step_up(old_r, r@, before, i as int);
        }
    }
    r
}

/// One place more, with nines below it that became zeros, is the number above.
proof fn lemma_step_up(s: Seq<u8>, t: Seq<u8>, before: Seq<u8>, i: int)
    requires
        0 <= i < before.len(),
        s.len() == before.len(),
        are_places(s),
        are_places(before),
        before.last() > 0,
        before[i] < 9,
        t == s.update(i, (before[i] + 1) as u8),
        forall|j: int| i <= j < s.len() ==> s[j] == before[j],
        places_value(s.take(i)) + ten(i as nat) == places_value(before.take(i)) + 1,
    ensures
        is_number(t),
        places_value(t) == places_value(before) + 1,
{
    let n = (i + 1) as nat;
    let p = ten(i as nat);
    let d = before[i] as nat;
    assert(are_places(t)) by {
        assert forall|j: int| 0 <= j < t.len() implies #[trigger] t[j] <= 9 by {
            assert(j == i || t[j] == s[j]);
        }
    }
    lemma_places_split(t, n);
    lemma_places_split(before, n);
    assert(t.skip(n as int) =~= before.skip(n as int));
    assert(t.take(n as int).drop_last() =~= s.take(i));
    assert(before.take(n as int).drop_last() =~= before.take(i));
    assert(t.take(n as int).last() == d + 1);
    assert((d + 1) * p == d * p + p) by (nonlinear_arith);
}

/// How many digits a float has in full.
proof fn lemma_full_count(float: (nat, nat))
    requires
        is_float(float),
        0 < float.0,
        float.1 <= 2045,
    ensures
        ten(716) <= full_digits(float) < ten(1416),
{
    let (f, e) = float;
    let g = f * two(e);
    let v = five(1074);
    lemma_powers();
    lemma_two_positive(e);
    lemma_five_positive(1074);
    lemma_fives_above_tens(358);
    assert(g >= 1) by (nonlinear_arith)
        requires
            g == f * two(e),
            f >= 1,
            two(e) >= 1,
    ;
    assert(g * v >= v) by (nonlinear_arith)
        requires
            g >= 1,
    ;
    lemma_two_grows(e, 2045);
    assert(g < two(53) * two(2045)) by (nonlinear_arith)
        requires
            g == f * two(e),
            f < two(53),
            two(e) <= two(2045),
            two(e) >= 1,
    ;
    lemma_two_adds(53, 2045);
    lemma_two_adds(1024, 1074);
    lemma_two_five(1074);
    lemma_two_below_ten(342);
    lemma_two_grows(1024, 1026);
    lemma_ten_adds(342, 1074);
    let a = two(1024);
    let b = two(1074);
    assert(g * v < (a * b) * v) by (nonlinear_arith)
        requires
            g < a * b,
            v >= 1,
    ;
    assert((a * b) * v == a * (b * v)) by (nonlinear_arith);
    let t = ten(1074);
    assert(a * t <= ten(342) * t) by (nonlinear_arith)
        requires
            a <= ten(342),
    ;
}

/// A hundred is less than 125, power for power.
proof fn lemma_fives_above_tens(k: nat)
    ensures
        ten(2 * k) <= five(3 * k),
    decreases k,
{
    if k > 0 {
        lemma_fives_above_tens((k - 1) as nat);
        let j = (k - 1) as nat;
        assert(ten(2 * k) == 100 * ten(2 * j)) by {
            reveal_with_fuel(ten, 3);
        }
        assert(five(3 * k) == 125 * five(3 * j)) by {
            reveal_with_fuel(five, 4);
        }
    }
}

/// The shortest digits that read back as a float, as places with their scale.
#[verifier::spinoff_prover]
fn shortest_places(mantissa: u64, exponent: u128) -> (r: (Vec<u8>, i128))
    requires
        is_float((mantissa as nat, exponent as nat)),
        0 < mantissa,
        exponent <= 2045,
    ensures
        is_number(r.0@),
        (places_value(r.0@), r.1 as int) == shortest((mantissa as nat, exponent as nat)),
        -400 <= r.0@.len() + r.1 <= 400,
{
    let ghost float = (mantissa as nat, exponent as nat);
    let mut v = places_of_nat(mantissa);
    multiply_by_twos(&mut v, exponent);
    multiply_by_fives(&mut v, 1074);
    let count: usize = v.len();
    proof {
        lemma_full_count(float);
        lemma_number_bounds(v@);
        if count > 1416 {
            lemma_ten_grows(1416, (count - 1) as nat);
        }
        if count < 717 {
            lemma_ten_grows(count as nat, 716);
        }
        lemma_places_text(v@);
    }
    let mut n: usize = 1;
    while n < count
        invariant
            1 <= n <= count,
            count == v@.len(),
            717 <= count <= 1416,
            is_number(v@),
            places_value(v@) == full_digits(float),
            nat_text(full_digits(float)).len() == count,
            float == (mantissa as nat, exponent as nat),
            shortest(float) == shortest_from(float, n as nat),
        decreases count - n,
    {
        let dropped: usize = count - n;
        let scale: i128 = dropped as i128 - 1074;
        let high_is_near = match lower_half(&v, dropped as u128) {
            Half::Below => false,
            _ => true,
        };
        let low = upper_places(&v, dropped);
        let (f, e) = nearest_float(upper_places(&v, dropped), scale);
        let low_reads_back = f == mantissa && e == exponent;
        if low_reads_back && !high_is_near {
            return (low, scale);
        }
        let high = next_number(upper_places(&v, dropped));
        let (f, e) = nearest_float(next_number(upper_places(&v, dropped)), scale);
        let high_reads_back = f == mantissa && e == exponent;
        if high_reads_back {
            if high_is_near || !low_reads_back {
                return (high, scale);
            }
        }
        if low_reads_back {
            return (low, scale);
        }
        n = n + 1;
    }
    (v, -1074)
}

/// A number as digits.
fn digits_of_places(v: &Vec<u8>) -> (r: Vec<char>)
    requires
        is_number(v@),
    ensures
        r@ == nat_text(places_value(v@)),
{
    let n: usize = v.len();
    let mut r: Vec<char> = Vec::new();
    while r.len() < n
        invariant
            n == v@.len(),
            r@.len() <= n,
            are_places(v@),
            forall|j: int| 0 <= j < r@.len() ==> r@[j] == digit_char(v@[n - 1 - j] as nat),
        decreases n - r@.len(),
    {
        let d: u8 = v[n - 1 - r.len()];
        assert(v@[n - 1 - r@.len()] <= 9);
        r.push((d + 48) as char);
    }
    proof {
        lemma_places_text(v@);
        assert(r@ =~= places_text(v@));
    }
    r
}

/// What the float nearest to a literal shows; nothing where it is infinite.
pub(crate) fn float_literal(s: &Vec<char>) -> (r: Option<String>)
    requires
        is_float_literal(s@),
    ensures
        r is None <==> literal_overflows(s@),
        r matches Some(t) ==> t@ == float_form(s@),
{
    let plain = match canonical_literal(s) {
        Some(t) => t,
        None => return None,
    };
    let digits = significant_digits(s);
    proof {
        lemma_literal_parts(s@);
        lemma_drop_leading(mantissa(s@));
        law_nearest_floats_vanish(digits_value(mantissa(s@)), literal_scale(s@));
        law_nearest_floats_overflow(digits_value(mantissa(s@)), literal_scale(s@));
    }
    if digits.len() == 0 {
        proof {
            if !literal_vanishes(s@) {
                lemma_stays_significant(s@);
            }
        }
        return Some(plain);
    }
    let point = point_of(s, digits.len());
    if kept_digits(&digits) <= 15 && -300 < point && point <= 300 {
        proof {
            if !literal_vanishes(s@) {
                law_short_literals_show_themselves(s@);
            }
        }
        return Some(plain);
    }
    proof {
        lemma_stays(digits@, literal_scale(s@));
        lemma_reaches(digits@, literal_scale(s@));
    }
    if point < -400 {
        return Some(plain);
    }
    let scale: i128 = point - digits.len() as i128;
    let (f, e) = nearest_float(exact_places(&digits), scale);
    if f == 0 {
        return Some(plain);
    }
    let (number, scale) = shortest_places(f, e);
    let shown = digits_of_places(&number);
    let place: i128 = shown.len() as i128 + scale;
    proof {
        lemma_places_text(number@);
    }
    Some(write_positional(&shown, place))
}

/// What the float nearest to a whole number shows.
pub(crate) fn float_of_nat(v: u64) -> (r: String)
    ensures
        r@ == float_form(nat_text(v as nat)),
{
    let plain = write_nat(v);
    let chars = chars_of(plain.as_str());
    proof {
        let t = nat_text(v as nat);
        let none = Seq::<char>::empty();
        lemma_nat_text(v as nat);
        lemma_pointed(t, none);
        assert(pointed(t, none) == t);
        assert(t + none =~= t);
        lemma_bound_range();
        lemma_ten_grows(20, 300);
        assert(ten(20) == 100_000_000_000_000_000_000) by {
            reveal_with_fuel(ten, 21);
        }
        let x = v as nat;
        let one = ten(0);
        assert(x * one == x) by (nonlinear_arith)
            requires
                one == 1,
        ;
    }
    match float_literal(&chars) {
        Some(shown) => shown,
        None => plain,
    }
}

}
