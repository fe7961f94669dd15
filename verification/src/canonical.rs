//! The canonical form of a decimal literal: its digits in their places,
//! without an exponent and without zeros that say nothing, so that equal
//! numbers have equal literals.

use crate::bignum::{
    infinity_bound, lemma_reaches, lemma_stays, lemma_stays_shifted, reaches, stays,
};
use crate::decimal::{
    is_finite_literal, is_float_literal, lemma_digit_run_is, lemma_literal_parts,
    lemma_zero_stays, literal_overflows, literal_scale, mantissa, mantissa_end,
};
use crate::digits::{
    all_digits, digits_value, is_digit, lemma_digits_concat, lemma_ten_adds, lemma_ten_positive,
    ten, two,
};
use crate::shortest::{
    float_form, law_short_literals_show_themselves, lemma_same_form, lemma_zero_form,
};
use crate::text::text_of;
use vstd::prelude::*;

verus! {

/// `n` zeros.
pub open spec fn zeros(n: nat) -> Seq<char> {
    Seq::new(n, |i: int| '0')
}

/// `d` without its leading zeros.
pub open spec fn drop_leading(d: Seq<char>) -> Seq<char>
    decreases d.len(),
{
    if d.len() > 0 && d[0] == '0' {
        drop_leading(d.skip(1))
    } else {
        d
    }
}

/// `d` without its trailing zeros.
pub open spec fn drop_trailing(d: Seq<char>) -> Seq<char>
    decreases d.len(),
{
    if d.len() > 0 && d.last() == '0' {
        drop_trailing(d.drop_last())
    } else {
        d
    }
}

/// The digits of a literal from the first one that is not zero on.
pub open spec fn significant(s: Seq<char>) -> Seq<char> {
    drop_leading(mantissa(s))
}

/// How many of the significant digits stand before the point; a negative
/// number counts the zeros between the point and them.
pub open spec fn point_place(s: Seq<char>) -> int {
    significant(s).len() + literal_scale(s)
}

/// The digits before the point.
pub open spec fn whole_part(sig: Seq<char>, point: int) -> Seq<char> {
    if point <= 0 {
        seq!['0']
    } else if point <= sig.len() {
        sig.take(point)
    } else {
        sig + zeros((point - sig.len()) as nat)
    }
}

/// The digits behind the point.
pub open spec fn fraction_part(sig: Seq<char>, point: int) -> Seq<char> {
    if point <= 0 {
        zeros((-point) as nat) + sig
    } else if point < sig.len() {
        sig.skip(point)
    } else {
        Seq::<char>::empty()
    }
}

/// A text of digits, with a point where there is a fraction.
pub open spec fn pointed(whole: Seq<char>, fraction: Seq<char>) -> Seq<char> {
    if fraction.len() == 0 {
        whole
    } else {
        whole.push('.') + fraction
    }
}

/// Significant digits in their places.
pub open spec fn positional(sig: Seq<char>, point: int) -> Seq<char> {
    pointed(whole_part(sig, point), drop_trailing(fraction_part(sig, point)))
}

/// The literal denotes a number that rounds to zero.
pub open spec fn literal_vanishes(s: Seq<char>) -> bool {
    !stays(digits_value(mantissa(s)), literal_scale(s))
}

/// The canonical form of a literal.
pub open spec fn canonical(s: Seq<char>) -> Seq<char> {
    if literal_vanishes(s) {
        seq!['0']
    } else {
        positional(significant(s), point_place(s))
    }
}

// ---------------------------------------------------------------------------
// Zeros
// ---------------------------------------------------------------------------

/// What is dropped at the front are zeros.
pub proof fn lemma_drop_leading(d: Seq<char>)
    ensures
        drop_leading(d).len() <= d.len(),
        drop_leading(d) == d.skip(d.len() - drop_leading(d).len()),
        drop_leading(d).len() > 0 ==> drop_leading(d)[0] != '0',
        digits_value(drop_leading(d)) == digits_value(d),
        all_digits(d) ==> all_digits(drop_leading(d)),
    decreases d.len(),
{
    if d.len() > 0 && d[0] == '0' {
        let rest = d.skip(1);
        lemma_drop_leading(rest);
        let n = drop_leading(rest).len();
        assert(rest.skip(rest.len() - n) =~= d.skip(d.len() - n));
        lemma_digits_concat(seq!['0'], rest);
        assert(seq!['0'] + rest =~= d);
        reveal_with_fuel(digits_value, 2);
        assert(digits_value(seq!['0']) == 0);
        assert(0 * ten(rest.len()) == 0) by (nonlinear_arith);
        if all_digits(d) {
            assert forall|i: int| 0 <= i < rest.len() implies is_digit(#[trigger] rest[i]) by {
                assert(rest[i] == d[i + 1]);
            }
        }
    } else {
        assert(d.skip(0) =~= d);
    }
}

/// The digits dropped at the front are zeros.
proof fn lemma_dropped_are_zeros(d: Seq<char>)
    ensures
        forall|i: int| 0 <= i < d.len() - drop_leading(d).len() ==> #[trigger] d[i] == '0',
    decreases d.len(),
{
    if d.len() > 0 && d[0] == '0' {
        let rest = d.skip(1);
        lemma_dropped_are_zeros(rest);
        assert forall|i: int| 0 <= i < d.len() - drop_leading(d).len() implies #[trigger] d[i]
            == '0' by {
            if i > 0 {
                assert(d[i] == rest[i - 1]);
            }
        }
    }
}

/// A digit behind others is kept but for a zero behind zeros.
pub proof fn lemma_drop_leading_push(d: Seq<char>, c: char)
    ensures
        drop_leading(d.push(c)) == if drop_leading(d).len() > 0 || c != '0' {
            drop_leading(d).push(c)
        } else {
            Seq::<char>::empty()
        },
    decreases d.len(),
{
    let all = d.push(c);
    if d.len() > 0 {
        assert(all[0] == d[0]);
        if d[0] == '0' {
            assert(all.skip(1) =~= d.skip(1).push(c));
            lemma_drop_leading_push(d.skip(1), c);
        }
    } else {
        assert(all.skip(1) =~= Seq::<char>::empty());
        reveal_with_fuel(drop_leading, 2);
        assert(d.push(c) =~= drop_leading(d).push(c));
    }
}

/// Zeros before digits are dropped.
proof fn lemma_drop_leading_zeros(n: nat, d: Seq<char>)
    ensures
        drop_leading(zeros(n) + d) == drop_leading(d),
    decreases n,
{
    if n > 0 {
        let all = zeros(n) + d;
        assert(all[0] == '0');
        assert(all.skip(1) =~= zeros((n - 1) as nat) + d);
        lemma_drop_leading_zeros((n - 1) as nat, d);
    } else {
        assert(zeros(0) + d =~= d);
    }
}

/// What is dropped at the back are zeros.
pub proof fn lemma_drop_trailing(d: Seq<char>)
    ensures
        drop_trailing(d).len() <= d.len(),
        drop_trailing(d) == d.take(drop_trailing(d).len() as int),
        drop_trailing(d).len() > 0 ==> drop_trailing(d).last() != '0',
        digits_value(d) == digits_value(drop_trailing(d)) * ten(
            (d.len() - drop_trailing(d).len()) as nat,
        ),
        all_digits(d) ==> all_digits(drop_trailing(d)),
        d.len() > 0 && d[0] != '0' ==> drop_trailing(d).len() > 0,
    decreases d.len(),
{
    if d.len() > 0 && d.last() == '0' {
        let rest = d.drop_last();
        lemma_drop_trailing(rest);
        let kept = drop_trailing(rest);
        assert(rest.take(kept.len() as int) =~= d.take(kept.len() as int));
        let x = digits_value(kept);
        let y = ten((rest.len() - kept.len()) as nat);
        assert(ten((d.len() - kept.len()) as nat) == 10 * y);
        assert(10 * (x * y) == x * (10 * y)) by (nonlinear_arith);
        if all_digits(d) {
            assert forall|i: int| 0 <= i < rest.len() implies is_digit(#[trigger] rest[i]) by {
                assert(rest[i] == d[i]);
            }
        }
        if d[0] != '0' {
            assert(rest.len() > 0);
            assert(rest[0] == d[0]);
        }
    } else {
        assert(d.take(d.len() as int) =~= d);
        assert(digits_value(d) * 1 == digits_value(d)) by (nonlinear_arith);
    }
}

/// Dropping works from the back: digits that stay keep everything before
/// them.
proof fn lemma_drop_trailing_concat(a: Seq<char>, b: Seq<char>)
    ensures
        drop_trailing(a + b) == if drop_trailing(b).len() > 0 {
            a + drop_trailing(b)
        } else {
            drop_trailing(a)
        },
    decreases b.len(),
{
    if b.len() > 0 {
        assert((a + b).last() == b.last());
        assert((a + b).drop_last() =~= a + b.drop_last());
        if b.last() == '0' {
            lemma_drop_trailing_concat(a, b.drop_last());
        }
    } else {
        assert(a + b =~= a);
    }
}

/// Nothing stays of zeros.
proof fn lemma_drop_trailing_zeros(n: nat)
    ensures
        drop_trailing(zeros(n)).len() == 0,
    decreases n,
{
    if n > 0 {
        assert(zeros(n).drop_last() =~= zeros((n - 1) as nat));
        lemma_drop_trailing_zeros((n - 1) as nat);
    }
}

// ---------------------------------------------------------------------------
// What the canonical form keeps
// ---------------------------------------------------------------------------

/// Digits with a point among them, or none, are a literal of these digits.
pub proof fn lemma_pointed(whole: Seq<char>, fraction: Seq<char>)
    requires
        whole.len() > 0,
        all_digits(whole),
        all_digits(fraction),
    ensures
        is_float_literal(pointed(whole, fraction)),
        mantissa(pointed(whole, fraction)) == whole + fraction,
        literal_scale(pointed(whole, fraction)) == -(fraction.len() as int),
        mantissa_end(pointed(whole, fraction)) == pointed(whole, fraction).len(),
{
    let s = pointed(whole, fraction);
    let n = whole.len();
    assert forall|i: int| 0 <= i < n implies is_digit(#[trigger] s[i]) by {
        assert(s[i] == whole[i]);
    }
    if fraction.len() == 0 {
        lemma_digit_run_is(s, 0, n);
        assert(s.skip(s.len() as int) =~= Seq::<char>::empty());
        assert(mantissa(s) =~= whole + fraction);
    } else {
        let m = fraction.len();
        assert(s[n as int] == '.');
        lemma_digit_run_is(s, 0, n);
        assert forall|i: int| n + 1 <= i < n + 1 + m implies is_digit(#[trigger] s[i]) by {
            assert(s[i] == fraction[i - n - 1]);
        }
        lemma_digit_run_is(s, n + 1int, m);
        assert(s.skip(s.len() as int) =~= Seq::<char>::empty());
        assert(mantissa(s) =~= whole + fraction);
    }
}

/// The parts of digits in their places are digits.
proof fn lemma_parts(sig: Seq<char>, point: int)
    requires
        sig.len() > 0,
        all_digits(sig),
    ensures
        whole_part(sig, point).len() > 0,
        all_digits(whole_part(sig, point)),
        all_digits(fraction_part(sig, point)),
        all_digits(drop_trailing(fraction_part(sig, point))),
{
    let w = whole_part(sig, point);
    let f = fraction_part(sig, point);
    assert forall|i: int| 0 <= i < w.len() implies is_digit(#[trigger] w[i]) by {
        if point > 0 && i < sig.len() {
            assert(w[i] == sig[i]);
        }
    }
    assert forall|i: int| 0 <= i < f.len() implies is_digit(#[trigger] f[i]) by {
        if point <= 0 {
            if i >= -point {
                assert(f[i] == sig[i + point]);
            }
        } else {
            assert(f[i] == sig[i + point]);
        }
    }
    lemma_drop_trailing(f);
}

/// Digits in their places are a literal with the same point place, the same
/// significant digits up to trailing zeros, and in canonical form.
#[verifier::rlimit(40)]
pub proof fn lemma_positional(sig: Seq<char>, point: int)
    requires
        sig.len() > 0,
        all_digits(sig),
        sig[0] != '0',
    ensures
        ({
            let c = positional(sig, point);
            &&& is_float_literal(c)
            &&& significant(c).len() > 0
            &&& point_place(c) == point
            &&& drop_trailing(significant(c)) == drop_trailing(sig)
            &&& positional(significant(c), point) == c
        }),
{
    let w = whole_part(sig, point);
    let f = drop_trailing(fraction_part(sig, point));
    let c = positional(sig, point);
    lemma_parts(sig, point);
    lemma_pointed(w, f);
    lemma_drop_trailing(sig);
    let t = drop_trailing(sig);
    lemma_drop_trailing(t);
    assert(drop_trailing(t) == t);
    if point <= 0 {
        let n = (-point) as nat;
        lemma_drop_trailing_concat(zeros(n), sig);
        assert(f == zeros(n) + t);
        assert(w + f =~= zeros(n + 1) + t);
        lemma_drop_leading_zeros(n + 1, t);
        assert(t[0] == sig[0]);
        assert(significant(c) == t);
        lemma_drop_trailing_concat(zeros(n), t);
    } else if point < sig.len() {
        let rest = sig.skip(point);
        assert(w + rest =~= sig);
        lemma_drop_trailing_concat(w, rest);
        lemma_drop_trailing(rest);
        assert((w + f)[0] == sig[0]);
        assert(significant(c) == w + f);
        if f.len() == 0 {
            assert(w + f =~= w);
            assert(w.take(point) =~= w);
        } else {
            lemma_drop_trailing(f);
            assert(drop_trailing(f) == f);
            lemma_drop_trailing_concat(w, f);
            assert((w + f).take(point) =~= w);
            assert((w + f).skip(point) =~= f);
        }
    } else {
        let k = (point - sig.len()) as nat;
        assert(w =~= sig + zeros(k));
        assert(w + f =~= w);
        assert(w[0] == sig[0]);
        lemma_drop_trailing_zeros(k);
        lemma_drop_trailing_concat(sig, zeros(k));
        assert(w.take(point) =~= w);
    }
}

/// What a literal denotes, written with its significant digits alone.
pub proof fn lemma_number(s: Seq<char>)
    requires
        is_float_literal(s),
    ensures
        all_digits(significant(s)),
        significant(s).len() > 0 ==> significant(s)[0] != '0',
        digits_value(mantissa(s)) == digits_value(drop_trailing(significant(s))) * ten(
            (significant(s).len() - drop_trailing(significant(s)).len()) as nat,
        ),
        drop_trailing(significant(s)).len() <= significant(s).len(),
        literal_scale(s) == point_place(s) - significant(s).len(),
{
    lemma_literal_parts(s);
    lemma_drop_leading(mantissa(s));
    lemma_drop_trailing(significant(s));
}

/// More zeros and a smaller scale are the same number.
proof fn lemma_reaches_shifted(v: nat, j: nat, scale: int, bound: nat)
    ensures
        reaches(v * ten(j), scale - j, bound) == reaches(v, scale, bound),
{
    lemma_ten_positive(j);
    let p = ten(j);
    if scale - j >= 0 {
        lemma_ten_adds(j, (scale - j) as nat);
        let q = ten((scale - j) as nat);
        assert((v * p) * q == v * (p * q)) by (nonlinear_arith);
    } else if scale >= 0 {
        let k = (j - scale) as nat;
        lemma_ten_adds(scale as nat, k);
        lemma_ten_positive(k);
        let a = ten(scale as nat);
        let b = ten(k);
        assert(p == a * b);
        assert(v * p >= bound * b <==> v * a >= bound) by (nonlinear_arith)
            requires
                p == a * b,
                b >= 1,
        ;
    } else {
        let n = (-scale) as nat;
        lemma_ten_adds(n, j);
        let a = ten(n);
        assert((-(scale - j)) as nat == n + j);
        assert(v * p >= bound * (a * p) <==> v >= bound * a) by (nonlinear_arith)
            requires
                p >= 1,
        ;
    }
}

/// Literals with the same significant digits, up to trailing zeros, and the
/// same point place denote the same number.
pub proof fn lemma_same_overflow(s: Seq<char>, c: Seq<char>)
    requires
        is_float_literal(s),
        is_float_literal(c),
        drop_trailing(significant(c)) == drop_trailing(significant(s)),
        point_place(c) == point_place(s),
    ensures
        literal_overflows(c) == literal_overflows(s),
        literal_vanishes(c) == literal_vanishes(s),
{
    lemma_number(s);
    lemma_number(c);
    let t = drop_trailing(significant(s));
    let v = digits_value(t);
    let e = point_place(s) - t.len();
    lemma_reaches_shifted(
        v,
        (significant(s).len() - t.len()) as nat,
        e,
        infinity_bound(),
    );
    lemma_reaches_shifted(
        v,
        (significant(c).len() - t.len()) as nat,
        e,
        infinity_bound(),
    );
    lemma_stays_shifted(v, (significant(s).len() - t.len()) as nat, e);
    lemma_stays_shifted(v, (significant(c).len() - t.len()) as nat, e);
}

/// A number that does not round to zero has significant digits.
pub proof fn lemma_stays_significant(s: Seq<char>)
    requires
        !literal_vanishes(s),
    ensures
        significant(s).len() > 0,
{
    lemma_drop_leading(mantissa(s));
    if significant(s).len() == 0 {
        assert(digits_value(significant(s)) == 0);
        assert(0 * two(1075) == 0) by (nonlinear_arith);
    }
}

/// `0` is the canonical zero.
pub proof fn lemma_zero()
    ensures
        is_float_literal(seq!['0']),
        canonical(seq!['0']) == seq!['0'],
        !literal_overflows(seq!['0']),
        significant(seq!['0']).len() == 0,
        digits_value(mantissa(seq!['0'])) == 0,
{
    let z = seq!['0'];
    let none = Seq::<char>::empty();
    lemma_pointed(z, none);
    assert(pointed(z, none) == z);
    assert(mantissa(z) =~= z);
    assert(z.skip(1) =~= none);
    reveal_with_fuel(drop_leading, 2);
    reveal_with_fuel(digits_value, 2);
    lemma_zero_stays(literal_scale(z));
    assert(literal_scale(z) == 0);
}

/// The canonical form of a literal is a literal in canonical form, and is
/// finite where the literal is.
pub proof fn law_canonical_form_is_canonical(s: Seq<char>)
    requires
        is_float_literal(s),
    ensures
        is_float_literal(canonical(s)),
        canonical(canonical(s)) == canonical(s),
        !literal_overflows(s) ==> !literal_overflows(canonical(s)),
{
    if literal_vanishes(s) {
        lemma_zero();
    } else {
        lemma_number(s);
        lemma_stays_significant(s);
        lemma_positional(significant(s), point_place(s));
        lemma_same_overflow(s, canonical(s));
    }
}

/// The canonical form denotes the number of the literal: its digits at its
/// scale are those of the literal at the scale of the literal. Numbers that
/// round to zero are zero.
pub proof fn law_canonical_form_keeps_the_number(s: Seq<char>)
    requires
        is_float_literal(s),
    ensures
        literal_vanishes(s) ==> digits_value(mantissa(canonical(s))) == 0,
        !literal_vanishes(s) ==> exists|a: nat, b: nat|
            #![trigger ten(a), ten(b)]
            digits_value(mantissa(s)) * ten(a) == digits_value(mantissa(canonical(s))) * ten(b)
                && literal_scale(s) - a == literal_scale(canonical(s)) - b,
{
    if literal_vanishes(s) {
        lemma_zero();
    } else {
        let c = canonical(s);
        lemma_number(s);
        lemma_stays_significant(s);
        lemma_positional(significant(s), point_place(s));
        lemma_number(c);
        let t = drop_trailing(significant(s));
        let v = digits_value(t);
        let i = (significant(s).len() - t.len()) as nat;
        let j = (significant(c).len() - t.len()) as nat;
        let x = ten(i);
        let y = ten(j);
        assert((v * x) * y == (v * y) * x) by (nonlinear_arith);
        assert(digits_value(mantissa(s)) * ten(j) == digits_value(mantissa(c)) * ten(i));
    }
}

/// Up to fifteen digits without a zero that says nothing, and a point where
/// there is a fraction, are a literal that a finite float shows.
pub proof fn lemma_plain_number(whole: Seq<char>, fraction: Seq<char>)
    requires
        0 < whole.len(),
        whole.len() + fraction.len() <= 15,
        all_digits(whole),
        all_digits(fraction),
        whole[0] != '0' || whole.len() == 1,
        fraction.len() > 0 ==> fraction.last() != '0',
    ensures
        is_finite_literal(pointed(whole, fraction)),
{
    reveal(is_finite_literal);
    let s = pointed(whole, fraction);
    let sig = significant(s);
    let point = point_place(s);
    lemma_pointed(whole, fraction);
    lemma_number(s);
    lemma_drop_leading(mantissa(s));
    lemma_drop_trailing(fraction);
    assert(drop_trailing(fraction) == fraction);
    if whole[0] != '0' {
        assert((whole + fraction)[0] == whole[0]);
        assert(sig == whole + fraction);
        assert(sig.take(point) =~= whole);
        assert(fraction_part(sig, point) =~= fraction);
    } else {
        assert(whole + fraction =~= zeros(1) + fraction);
        lemma_drop_leading_zeros(1, fraction);
        lemma_drop_leading(fraction);
        if sig.len() == 0 {
            lemma_dropped_are_zeros(fraction);
            assert(s =~= seq!['0']);
            lemma_zero();
        } else {
            lemma_dropped_are_zeros(fraction);
            assert(zeros((-point) as nat) + sig =~= fraction);
            assert(whole =~= seq!['0']);
        }
    }
    if sig.len() > 0 {
        lemma_reaches(sig, literal_scale(s));
        lemma_stays(sig, literal_scale(s));
        lemma_drop_trailing(sig);
        law_short_literals_show_themselves(s);
    } else {
        lemma_zero_form();
    }
}

/// A fraction of zero behind a canonical literal without one does not change
/// the number.
pub proof fn lemma_zero_fraction(s: Seq<char>)
    requires
        is_float_literal(s),
        canonical(s) == s,
        !s.contains('.'),
        !literal_overflows(s),
    ensures
        is_float_literal(s + seq!['.', '0']),
        canonical(s + seq!['.', '0']) == s,
        float_form(s + seq!['.', '0']) == float_form(s),
        !literal_overflows(s + seq!['.', '0']),
{
    let x = s + seq!['.', '0'];
    let f = seq!['0'];
    let sig = significant(s);
    let point = point_place(s);
    lemma_literal_parts(s);
    lemma_number(s);
    assert(all_digits(f));
    if literal_vanishes(s) {
        lemma_zero();
        assert(x =~= pointed(seq!['0'], f));
        lemma_pointed(seq!['0'], f);
        assert(seq!['0'] + f =~= zeros(2) + Seq::<char>::empty());
        lemma_drop_leading_zeros(2, Seq::<char>::empty());
        assert(significant(x).len() == 0);
        assert(digits_value(mantissa(x)) == 0) by {
            reveal_with_fuel(digits_value, 3);
        }
        lemma_zero_stays(literal_scale(x));
        assert(0 * two(1075) == 0) by (nonlinear_arith);
    } else {
        lemma_stays_significant(s);
        let w = whole_part(sig, point);
        let g = drop_trailing(fraction_part(sig, point));
        lemma_parts(sig, point);
        lemma_positional(sig, point);
        if g.len() > 0 {
            assert(s[w.len() as int] == '.');
            assert(s.contains('.'));
        }
        assert(s == w);
        assert(point > 0) by {
            if point <= 0 {
                let n = (-point) as nat;
                lemma_drop_trailing(sig);
                lemma_drop_trailing_concat(zeros(n), sig);
            }
        }
        assert(x =~= pointed(w, f));
        lemma_pointed(w, f);
        lemma_pointed(w, Seq::<char>::empty());
        assert(pointed(w, Seq::<char>::empty()) == s);
        assert(w + Seq::<char>::empty() =~= w);
        assert((w + f)[0] == w[0] && w[0] == sig[0]);
        assert(significant(s) == w);
        assert(significant(x) == w + f);
        lemma_drop_trailing_concat(w, f);
        reveal_with_fuel(drop_trailing, 2);
        assert(drop_trailing(f).len() == 0);
        assert(point_place(x) == point);
        assert((w + f).take(point) =~= w);
        assert((w + f).skip(point) =~= f);
        lemma_same_overflow(s, x);
        lemma_same_form(s, x);
    }
}

// ---------------------------------------------------------------------------
// Writing
// ---------------------------------------------------------------------------

/// Appends zeros.
fn push_zeros(out: &mut Vec<char>, count: usize)
    ensures
        final(out)@ == old(out)@ + zeros(count as nat),
{
    let ghost before = out@;
    assert(before + zeros(0) =~= before);
    for i in 0..count
        invariant
            out@ == before + zeros(i as nat),
    {
        out.push('0');
        assert(out@ =~= before + zeros((i + 1) as nat));
    }
}

/// Appends the digits from `from` to `to`.
fn push_digits(out: &mut Vec<char>, digits: &Vec<char>, from: usize, to: usize)
    requires
        from <= to <= digits@.len(),
    ensures
        final(out)@ == old(out)@ + digits@.subrange(from as int, to as int),
{
    let ghost before = out@;
    assert(before + digits@.subrange(from as int, from as int) =~= before);
    for i in from..to
        invariant
            from <= to <= digits@.len(),
            out@ == before + digits@.subrange(from as int, i as int),
    {
        out.push(digits[i]);
        assert(out@ =~= before + digits@.subrange(from as int, i + 1));
    }
}

/// How many digits stay when trailing zeros are dropped.
pub(crate) fn kept_digits(digits: &Vec<char>) -> (r: usize)
    ensures
        r == drop_trailing(digits@).len(),
        r <= digits@.len(),
{
    let mut n: usize = digits.len();
    assert(digits@.take(digits@.len() as int) =~= digits@);
    while n > 0 && digits[n - 1] == '0'
        invariant
            n <= digits@.len(),
            drop_trailing(digits@) == drop_trailing(digits@.take(n as int)),
        decreases n,
    {
        assert(digits@.take(n as int).drop_last() =~= digits@.take(n - 1));
        n = n - 1;
    }
    n
}

/// Writes significant digits in their places.
pub(crate) fn write_positional(sig: &Vec<char>, point: i128) -> (r: String)
    requires
        sig@.len() > 0,
        -400 <= point <= 400,
    ensures
        r@ == positional(sig@, point as int),
{
    let mut whole: Vec<char> = Vec::new();
    let mut fraction: Vec<char> = Vec::new();
    let len: usize = sig.len();
    if point <= 0 {
        whole.push('0');
        push_zeros(&mut fraction, (-point) as usize);
        push_digits(&mut fraction, sig, 0, len);
        assert(whole@ =~= whole_part(sig@, point as int));
        assert(sig@.subrange(0, len as int) =~= sig@);
        assert(fraction@ =~= fraction_part(sig@, point as int));
    } else {
        let before: usize = point as usize;
        if before <= len {
            push_digits(&mut whole, sig, 0, before);
            push_digits(&mut fraction, sig, before, len);
        } else {
            push_digits(&mut whole, sig, 0, len);
            push_zeros(&mut whole, before - len);
            assert(sig@.subrange(0, len as int) =~= sig@);
        }
        assert(whole@ =~= whole_part(sig@, point as int));
        assert(fraction@ =~= fraction_part(sig@, point as int));
    }
    let kept = kept_digits(&fraction);
    proof {
        lemma_drop_trailing(fraction@);
    }
    if kept > 0 {
        whole.push('.');
        push_digits(&mut whole, &fraction, 0, kept);
        assert(fraction@.subrange(0, kept as int) =~= drop_trailing(fraction@));
    }
    assert(whole@ =~= positional(sig@, point as int));
    text_of(whole.as_slice())
}

}
