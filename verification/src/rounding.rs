//! The double-precision float nearest to a decimal number.
//!
//! A float is a number of units of 2^-1074, the least float: a mantissa below
//! 2^53, times a power of two. Everything is computed in exact arithmetic on
//! decimal places.

use crate::bignum::{
    are_places, infinity_bound, lemma_places_bound, lemma_places_positive, lemma_zero_places,
    places_value, reaches, stays,
};
use crate::digits::{
    lemma_ten_adds, lemma_ten_grows, lemma_ten_positive, lemma_two_adds, lemma_two_grows,
    lemma_two_positive, ten, two,
};
use crate::quotient::{lemma_common_factor, lemma_powers, nearest_even};
use vstd::arithmetic::div_mod::{
    lemma_div_denominator, lemma_fundamental_div_mod_converse,
};
use vstd::prelude::*;

verus! {

/// Two to the power of 53, which every mantissa is below.
pub const MANTISSA_LIMIT: u64 = 0x20_0000_0000_0000;

/// Five to the power of `k`.
pub open spec fn five(k: nat) -> nat
    decreases k,
{
    if k == 0 {
        1
    } else {
        5 * five((k - 1) as nat)
    }
}

/// How often a number has to be halved until it is below the limit of the
/// mantissas.
pub open spec fn exponent_of(q: nat) -> nat
    decreases q,
{
    if q < MANTISSA_LIMIT {
        0
    } else {
        1 + exponent_of(q / 2)
    }
}

/// The float nearest to `num / den` units, halves to the even mantissa: its
/// mantissa and its power of two.
pub open spec fn nearest_ratio(num: nat, den: nat) -> (nat, nat) {
    let exponent = exponent_of(num / den);
    let mantissa = nearest_even(num, den * two(exponent));
    if mantissa == MANTISSA_LIMIT {
        ((MANTISSA_LIMIT / 2) as nat, exponent + 1)
    } else {
        (mantissa, exponent)
    }
}

/// The numerator of `m * 10^scale`, in units.
pub open spec fn units_num(m: nat, scale: int) -> nat {
    if scale >= 0 {
        m * ten(scale as nat) * two(1074)
    } else {
        m * two(1074)
    }
}

/// The denominator of a number at a scale.
pub open spec fn units_den(scale: int) -> nat {
    if scale >= 0 {
        1
    } else {
        ten((-scale) as nat)
    }
}

/// The float nearest to `m * 10^scale`, as its mantissa and its power of two.
pub open spec fn nearest(m: nat, scale: int) -> (nat, nat) {
    nearest_ratio(units_num(m, scale), units_den(scale))
}

/// A mantissa and a power of two that stand for a float: the mantissa fills 53
/// binary digits but for the least power.
pub open spec fn is_float(float: (nat, nat)) -> bool {
    float.0 < MANTISSA_LIMIT && (float.1 > 0 ==> 2 * float.0 >= MANTISSA_LIMIT)
}

// ---------------------------------------------------------------------------
// Exponents
// ---------------------------------------------------------------------------

/// Powers of two halve.
proof fn lemma_two_halves(j: nat, q: nat)
    requires
        q >= two(j + 1),
    ensures
        q / 2 >= two(j),
{
    assert(two(j + 1) == 2 * two(j));
}

/// Numbers below a power of two need few halvings.
pub proof fn lemma_exponent_below(q: nat, j: nat)
    requires
        q < two(53 + j),
    ensures
        exponent_of(q) <= j,
    decreases j,
{
    lemma_powers();
    if q >= MANTISSA_LIMIT {
        assert(j > 0);
        assert(two(53 + j) == 2 * two((53 + j - 1) as nat));
        assert((53 + j - 1) as nat == 53 + (j - 1) as nat);
        lemma_exponent_below(q / 2, (j - 1) as nat);
    }
}

/// Numbers not below a power of two need many halvings.
pub proof fn lemma_exponent_above(q: nat, j: nat)
    requires
        q >= two(52 + j),
    ensures
        exponent_of(q) >= j,
    decreases j,
{
    lemma_powers();
    if j > 0 {
        lemma_two_grows(53, 52 + j);
        assert((52 + j) as nat == (52 + (j - 1) as nat) + 1);
        lemma_two_halves(52 + (j - 1) as nat, q);
        lemma_exponent_above(q / 2, (j - 1) as nat);
    }
}

/// After its halvings a number is below the limit, and before the last one it
/// was not.
pub proof fn lemma_exponent(q: nat)
    ensures
        q < two(53 + exponent_of(q)),
        exponent_of(q) > 0 ==> q >= two(52 + exponent_of(q)),
    decreases q,
{
    lemma_powers();
    if q >= MANTISSA_LIMIT {
        let h = q / 2;
        lemma_exponent(h);
        let e = exponent_of(h);
        assert(two(53 + e + 1) == 2 * two(53 + e));
        assert(53 + exponent_of(q) == 53 + e + 1);
        assert(two(52 + e + 1) == 2 * two(52 + e));
        assert(52 + exponent_of(q) == 52 + e + 1);
    }
}

// ---------------------------------------------------------------------------
// Quotients
// ---------------------------------------------------------------------------

/// A quotient lies where its product does.
pub proof fn lemma_quotient_bounds(num: nat, den: nat, lo: nat, hi: nat)
    requires
        den > 0,
    ensures
        lo * den <= num <==> lo <= num / den,
        num < hi * den <==> num / den < hi,
{
    let q = num / den;
    assert(q * den <= num < (q + 1) * den) by (nonlinear_arith)
        requires
            q == num / den,
            den > 0,
    ;
    assert(lo <= q ==> lo * den <= q * den) by (nonlinear_arith);
    assert(lo >= q + 1 ==> lo * den >= (q + 1) * den) by (nonlinear_arith);
    assert(hi <= q ==> hi * den <= q * den) by (nonlinear_arith);
    assert(hi >= q + 1 ==> hi * den >= (q + 1) * den) by (nonlinear_arith);
}

/// The nearest float of a quotient is a float, and lies where the quotient
/// does.
pub proof fn lemma_nearest_ratio(num: nat, den: nat)
    requires
        den > 0,
    ensures
        is_float(nearest_ratio(num, den)),
        nearest_ratio(num, den).0 == 0 <==> 2 * num <= den,
{
    lemma_powers();
    let q = num / den;
    let e = exponent_of(q);
    lemma_exponent(q);
    lemma_two_positive(e);
    let c = two(e);
    let unit = den * c;
    assert(unit > 0) by (nonlinear_arith)
        requires
            den > 0,
            c > 0,
            unit == den * c,
    ;
    let whole = num / unit;
    lemma_two_adds(53, e);
    lemma_two_adds(52, e);
    lemma_quotient_bounds(num, den, two(52) * c, two(53) * c);
    lemma_quotient_bounds(num, unit, two(52), two(53));
    assert((two(53) * c) * den == two(53) * (den * c)) by (nonlinear_arith);
    assert((two(52) * c) * den == two(52) * (den * c)) by (nonlinear_arith);
    assert(whole < two(53));
    assert(e > 0 ==> whole >= two(52));
    let rest = num % unit;
    assert(num == whole * unit + rest) by (nonlinear_arith)
        requires
            whole == num / unit,
            rest == num % unit,
            unit > 0,
    ;
    if e == 0 {
        assert(den * 1 == den) by (nonlinear_arith);
        if whole == 0 {
            assert(0 * unit == 0) by (nonlinear_arith);
        } else {
            assert(whole * unit >= unit) by (nonlinear_arith)
                requires
                    whole >= 1,
            ;
        }
    } else {
        assert(num >= unit) by (nonlinear_arith)
            requires
                num == whole * unit + rest,
                whole >= 1,
        ;
        assert(unit >= den) by (nonlinear_arith)
            requires
                unit == den * c,
                c >= 1,
        ;
    }
}

/// Common factors do not change the nearest float.
pub proof fn lemma_same_ratio(num: nat, den: nat, c: nat)
    requires
        den > 0,
        c > 0,
    ensures
        nearest_ratio(num * c, den * c) == nearest_ratio(num, den),
{
    lemma_common_factor(num, den, c);
    let e = exponent_of(num / den);
    lemma_two_positive(e);
    let p = two(e);
    let unit = den * p;
    assert(unit > 0) by (nonlinear_arith)
        requires
            den > 0,
            p > 0,
            unit == den * p,
    ;
    lemma_common_factor(num, unit, c);
    assert((den * c) * p == (den * p) * c) by (nonlinear_arith);
}

/// Denominators are positive.
pub proof fn lemma_units_den(scale: int)
    ensures
        units_den(scale) > 0,
{
    if scale < 0 {
        lemma_ten_positive((-scale) as nat);
    }
}

/// More zeros and a smaller scale are the same number.
pub proof fn lemma_nearest_shifted(m: nat, j: nat, scale: int)
    ensures
        nearest(m * ten(j), scale - j) == nearest(m, scale),
{
    lemma_ten_positive(j);
    lemma_units_den(scale);
    let p = ten(j);
    let w = two(1074);
    if scale - j >= 0 {
        let q = ten((scale - j) as nat);
        lemma_ten_adds(j, (scale - j) as nat);
        assert((m * p) * q == m * (p * q)) by (nonlinear_arith);
    } else if scale >= 0 {
        let k = (j - scale) as nat;
        let a = ten(scale as nat);
        let b = ten(k);
        lemma_ten_adds(scale as nat, k);
        lemma_ten_positive(k);
        assert((m * p) * w == (m * a * w) * b) by (nonlinear_arith)
            requires
                p == a * b,
        ;
        assert(1 * b == b) by (nonlinear_arith);
        lemma_same_ratio(units_num(m, scale), 1, b);
    } else {
        let n = (-scale) as nat;
        lemma_ten_adds(n, j);
        assert((-(scale - j)) as nat == n + j);
        assert((m * p) * w == (m * w) * p) by (nonlinear_arith);
        lemma_same_ratio(units_num(m, scale), units_den(scale), p);
    }
}

/// The nearest float is zero where the number rounds to zero, and a float
/// always.
pub proof fn law_nearest_floats_vanish(m: nat, scale: int)
    ensures
        is_float(nearest(m, scale)),
        nearest(m, scale).0 == 0 <==> !stays(m, scale),
{
    lemma_units_den(scale);
    lemma_nearest_ratio(units_num(m, scale), units_den(scale));
    lemma_two_positive(1074);
    let w = two(1074);
    assert(two(1075) == 2 * w);
    if scale >= 0 {
        lemma_ten_positive(scale as nat);
        let p = ten(scale as nat);
        assert(2 * (m * p * w) <= 1 <==> m == 0) by (nonlinear_arith)
            requires
                p >= 1,
                w >= 1,
        ;
    } else {
        assert(m * (2 * w) == 2 * (m * w)) by (nonlinear_arith);
    }
}

/// The nearest float lies beyond the largest finite one exactly where the
/// number rounds to infinity.
pub proof fn law_nearest_floats_overflow(m: nat, scale: int)
    ensures
        reaches(m, scale, infinity_bound()) <==> nearest(m, scale).1 > 2045,
{
    let num = units_num(m, scale);
    let den = units_den(scale);
    lemma_units_den(scale);
    lemma_powers();
    let b = infinity_bound();
    let w = two(1074);
    lemma_two_positive(1074);
    // The bound in units is half a step of 2^2045 below 2^53 such steps.
    let odd = (two(54) - 1) as nat;
    assert(two(54) == 2 * two(53));
    assert(odd == 0x3f_ffff_ffff_ffff);
    let limit = odd * two(2044);
    assert(b * w == limit) by {
        lemma_two_adds(970, 1074);
        let x = two(970);
        assert((odd * x) * w == odd * (x * w)) by (nonlinear_arith);
    }
    assert(reaches(m, scale, b) <==> num >= limit * den) by {
        if scale >= 0 {
            let y = m * ten(scale as nat);
            assert(y * w >= (b * w) * 1 <==> y >= b) by (nonlinear_arith)
                requires
                    w >= 1,
            ;
        } else {
            let y = ten((-scale) as nat);
            assert(m * w >= (b * w) * y <==> m >= b * y) by (nonlinear_arith)
                requires
                    w >= 1,
            ;
        }
    }
    lemma_overflow_ratio(num, den, limit);
}

/// Where the nearest float of a quotient lies beyond the largest finite one.
proof fn lemma_overflow_ratio(num: nat, den: nat, limit: nat)
    requires
        den > 0,
        limit == 0x3f_ffff_ffff_ffff * two(2044),
    ensures
        num >= limit * den <==> nearest_ratio(num, den).1 > 2045,
{
    lemma_powers();
    let q = num / den;
    let e = exponent_of(q);
    lemma_exponent(q);
    lemma_two_positive(2044);
    let h = two(2044);
    assert(two(2045) == 2 * h);
    lemma_two_adds(54, 2044);
    lemma_two_adds(53, 2044);
    assert(two(54) == 2 * two(53));
    lemma_quotient_bounds(num, den, limit, limit);
    if e > 2045 {
        lemma_two_grows(2098, 52 + e);
        assert(q >= limit);
    } else if e < 2045 {
        lemma_two_grows(53 + e, 2097);
        assert(q < limit);
    } else {
        let unit = den * two(2045);
        let whole = num / unit;
        let rest = num % unit;
        assert(unit > 0) by (nonlinear_arith)
            requires
                unit == den * two(2045),
                den > 0,
                two(2045) > 0,
        ;
        assert(num == whole * unit + rest && rest < unit) by (nonlinear_arith)
            requires
                whole == num / unit,
                rest == num % unit,
                unit > 0,
        ;
        assert(2 * (limit * den) == 0x3f_ffff_ffff_ffff * unit) by (nonlinear_arith)
            requires
                limit == 0x3f_ffff_ffff_ffff * h,
                unit == den * (2 * h),
        ;
        lemma_two_adds(53, 2045);
        lemma_quotient_bounds(num, den, 0, two(53) * two(2045));
        assert((two(53) * two(2045)) * den == two(53) * unit) by (nonlinear_arith)
            requires
                unit == den * two(2045),
        ;
        lemma_quotient_bounds(num, unit, 0, two(53));
        let top: nat = 0x1f_ffff_ffff_ffff;
        assert(whole <= top);
        if whole == top {
            assert(2 * (top * unit) + unit == 0x3f_ffff_ffff_ffff * unit) by (nonlinear_arith)
                requires
                    top == 0x1f_ffff_ffff_ffff,
            ;
        } else {
            assert(2 * (whole * unit) + 2 * unit <= 2 * (top * unit)) by (nonlinear_arith)
                requires
                    whole + 1 <= top,
            ;
            assert(2 * (top * unit) + unit == 0x3f_ffff_ffff_ffff * unit) by (nonlinear_arith)
                requires
                    top == 0x1f_ffff_ffff_ffff,
            ;
        }
    }
}

// ---------------------------------------------------------------------------
// Places
// ---------------------------------------------------------------------------

/// Places without a leading zero.
pub open spec fn is_number(s: Seq<u8>) -> bool {
    s.len() > 0 && are_places(s) && s.last() > 0
}

/// Parts of places are places.
pub proof fn lemma_part_places(s: Seq<u8>, k: int)
    requires
        are_places(s),
        0 <= k <= s.len(),
    ensures
        are_places(s.take(k)),
        are_places(s.skip(k)),
{
    assert forall|i: int| 0 <= i < k implies #[trigger] s.take(k)[i] <= 9 by {
        assert(s.take(k)[i] == s[i]);
    }
    assert forall|i: int| 0 <= i < s.len() - k implies #[trigger] s.skip(k)[i] <= 9 by {
        assert(s.skip(k)[i] == s[i + k]);
    }
}

/// The lower places and the upper ones.
pub proof fn lemma_places_split(s: Seq<u8>, k: nat)
    requires
        k <= s.len(),
    ensures
        places_value(s) == places_value(s.take(k as int)) + ten(k) * places_value(
            s.skip(k as int),
        ),
    decreases s.len(),
{
    if k == s.len() {
        assert(s.take(k as int) =~= s);
        assert(ten(k) * 0 == 0) by (nonlinear_arith);
    } else {
        let t = s.drop_last();
        lemma_places_split(t, k);
        assert(t.take(k as int) =~= s.take(k as int));
        assert(s.skip(k as int).drop_last() =~= t.skip(k as int));
        let rest = (s.len() - 1 - k) as nat;
        lemma_ten_adds(k, rest);
        let a = ten(k);
        let b = ten(rest);
        let d = s.last() as nat;
        let u = places_value(t.skip(k as int));
        assert(a * (u + d * b) == a * u + d * (a * b)) by (nonlinear_arith);
    }
}

/// The upper places are the quotient by a power of ten, the lower ones the
/// remainder.
pub proof fn lemma_places_divided(s: Seq<u8>, k: nat)
    requires
        are_places(s),
        k <= s.len(),
    ensures
        places_value(s) / ten(k) == places_value(s.skip(k as int)),
        places_value(s) % ten(k) == places_value(s.take(k as int)),
{
    lemma_places_split(s, k);
    lemma_part_places(s, k as int);
    lemma_places_bound(s.take(k as int));
    let q = places_value(s.skip(k as int));
    let r = places_value(s.take(k as int));
    let t = ten(k);
    assert(t * q == q * t) by (nonlinear_arith);
    lemma_fundamental_div_mod_converse(
        places_value(s) as int,
        t as int,
        q as int,
        r as int,
    );
}

/// A power of ten above every place is above the number.
proof fn lemma_places_small(s: Seq<u8>, k: nat)
    requires
        are_places(s),
        s.len() <= k,
    ensures
        places_value(s) < ten(k),
        places_value(s) / ten(k) == 0,
        places_value(s) % ten(k) == places_value(s),
{
    lemma_places_bound(s);
    lemma_ten_grows(s.len(), k);
    let v = places_value(s);
    let t = ten(k);
    assert(0 * t == 0) by (nonlinear_arith);
    lemma_fundamental_div_mod_converse(v as int, t as int, 0, v as int);
}

/// Places without a leading zero denote at least a power of ten.
pub proof fn lemma_number_bounds(s: Seq<u8>)
    requires
        is_number(s),
    ensures
        ten((s.len() - 1) as nat) <= places_value(s) < ten(s.len()),
{
    lemma_places_bound(s);
    let p = ten((s.len() - 1) as nat);
    let d = s.last() as nat;
    assert(d * p >= p) by (nonlinear_arith)
        requires
            d >= 1,
    ;
}

/// Multiplies the number that the places denote.
fn multiply(v: &mut Vec<u8>, c: u64)
    requires
        is_number(old(v)@),
        0 < c <= 0x100_0000,
    ensures
        is_number(final(v)@),
        places_value(final(v)@) == c * places_value(old(v)@),
{
    let ghost before = v@;
    let ghost total = c * places_value(before);
    let n: usize = v.len();
    let mut carry: u64 = 0;
    let mut i: usize = 0;
    assert(before.take(0) =~= v@.take(0));
    assert(c * 0 == 0) by (nonlinear_arith);
    while i < n
        invariant
            i <= n,
            n > 0,
            0 < c <= 0x100_0000,
            carry < c,
            v@.len() == n,
            before.len() == n,
            before[n - 1] > 0,
            are_places(before),
            are_places(v@),
            forall|j: int| i <= j < n ==> v@[j] == before[j],
            i == n ==> carry > 0 || v@[n - 1] > 0,
            places_value(v@.take(i as int)) + carry as nat * ten(i as nat) == c * places_value(
                before.take(i as int),
            ),
        decreases n - i,
    {
        let ghost old_v = v@;
        let d: u8 = v[i];
        assert(before[i as int] <= 9);
        assert(c * (d as u64) <= 9 * c) by (nonlinear_arith)
            requires
                d <= 9,
        ;
        let sum: u64 = c * (d as u64) + carry;
        let low: u8 = (sum % 10) as u8;
        let high: u64 = sum / 10;
        v[i] = low;
        proof {
            let p = ten(i as nat);
            assert(v@.take(i + 1).drop_last() =~= old_v.take(i as int));
            assert(before.take(i + 1).drop_last() =~= before.take(i as int));
            assert(v@.take(i + 1).last() == low);
            assert(before.take(i + 1).last() == d);
            let l = low as nat;
            let h = high as nat;
            let r = carry as nat;
            let dd = d as nat;
            let cc = c as nat;
            let u = places_value(before.take(i as int));
            assert(l * p + h * (10 * p) == (cc * dd) * p + r * p) by (nonlinear_arith)
                requires
                    l + 10 * h == cc * dd + r,
            ;
            assert(cc * (u + dd * p) == cc * u + (cc * dd) * p) by (nonlinear_arith);
            assert(ten((i + 1) as nat) == 10 * p);
            if dd > 0 {
                assert(cc * dd >= cc) by (nonlinear_arith)
                    requires
                        dd >= 1,
                ;
            }
        }
        carry = high;
        i = i + 1;
    }
    assert(v@.take(n as int) =~= v@);
    assert(before.take(n as int) =~= before);
    while carry > 0
        invariant
            v@.len() > 0,
            are_places(v@),
            carry > 0 || v@.last() > 0,
            carry < 0x100_0000,
            places_value(v@) + carry as nat * ten(v@.len()) == total,
        decreases carry,
    {
        let ghost short = v@;
        let low: u8 = (carry % 10) as u8;
        v.push(low);
        proof {
            assert(v@.drop_last() =~= short);
            let p = ten(short.len());
            let l = low as nat;
            let h = (carry / 10) as nat;
            let r = carry as nat;
            assert(l * p + h * (10 * p) == r * p) by (nonlinear_arith)
                requires
                    l + 10 * h == r,
            ;
            assert(ten(v@.len()) == 10 * p);
        }
        carry = carry / 10;
    }
    assert(0 * ten(v@.len()) == 0) by (nonlinear_arith);
}

/// Doubles the number that the places denote, a number of times.
pub(crate) fn multiply_by_twos(v: &mut Vec<u8>, count: u128)
    requires
        is_number(old(v)@),
    ensures
        is_number(final(v)@),
        places_value(final(v)@) == places_value(old(v)@) * two(count as nat),
{
    let ghost m = places_value(v@);
    assert(m * 1 == m) by (nonlinear_arith);
    let mut done: u128 = 0;
    while done < count
        invariant
            done <= count,
            is_number(v@),
            places_value(v@) == m * two(done as nat),
        decreases count - done,
    {
        let ghost x = two(done as nat);
        if count - done >= 20 {
            proof {
                lemma_powers();
                lemma_two_adds(done as nat, 20);
                assert(0x10_0000 * (m * x) == m * (x * 0x10_0000)) by (nonlinear_arith);
            }
            multiply(v, 0x10_0000);
            done = done + 20;
        } else {
            assert(2 * (m * x) == m * (2 * x)) by (nonlinear_arith);
            multiply(v, 2);
            done = done + 1;
        }
    }
}

/// Multiplies the number that the places denote by five, a number of times.
pub(crate) fn multiply_by_fives(v: &mut Vec<u8>, count: u128)
    requires
        is_number(old(v)@),
    ensures
        is_number(final(v)@),
        places_value(final(v)@) == places_value(old(v)@) * five(count as nat),
{
    let ghost m = places_value(v@);
    assert(m * 1 == m) by (nonlinear_arith);
    let mut done: u128 = 0;
    while done < count
        invariant
            done <= count,
            is_number(v@),
            places_value(v@) == m * five(done as nat),
        decreases count - done,
    {
        let ghost x = five(done as nat);
        if count - done >= 10 {
            proof {
                lemma_five_adds(done as nat, 10);
                lemma_five_ten();
                assert(9_765_625 * (m * x) == m * (x * 9_765_625)) by (nonlinear_arith);
            }
            multiply(v, 9_765_625);
            done = done + 10;
        } else {
            assert(5 * (m * x) == m * (5 * x)) by (nonlinear_arith);
            multiply(v, 5);
            done = done + 1;
        }
    }
}

/// Appends a zero to the number that the places denote, a number of times.
fn multiply_by_tens(v: &mut Vec<u8>, count: u128)
    requires
        is_number(old(v)@),
    ensures
        is_number(final(v)@),
        places_value(final(v)@) == places_value(old(v)@) * ten(count as nat),
{
    let ghost m = places_value(v@);
    assert(m * 1 == m) by (nonlinear_arith);
    let mut done: u128 = 0;
    while done < count
        invariant
            done <= count,
            is_number(v@),
            places_value(v@) == m * ten(done as nat),
        decreases count - done,
    {
        let ghost x = ten(done as nat);
        assert(10 * (m * x) == m * (10 * x)) by (nonlinear_arith);
        multiply(v, 10);
        done = done + 1;
    }
}

/// Exponents of five add up.
pub proof fn lemma_five_adds(a: nat, b: nat)
    ensures
        five(a + b) == five(a) * five(b),
    decreases b,
{
    if b == 0 {
        assert(five(a) * 1 == five(a)) by (nonlinear_arith);
    } else {
        lemma_five_adds(a, (b - 1) as nat);
        let x = five(a);
        let y = five((b - 1) as nat);
        assert(5 * (x * y) == x * (5 * y)) by (nonlinear_arith);
        assert((a + b - 1) as nat == a + (b - 1) as nat);
    }
}

/// The tenth power of five.
proof fn lemma_five_ten()
    ensures
        five(10) == 9_765_625,
{
    reveal_with_fuel(five, 11);
}

/// Powers of five are positive.
pub proof fn lemma_five_positive(k: nat)
    ensures
        five(k) >= 1,
    decreases k,
{
    if k > 0 {
        lemma_five_positive((k - 1) as nat);
    }
}

/// Twos and fives are tens.
pub proof fn lemma_two_five(k: nat)
    ensures
        two(k) * five(k) == ten(k),
    decreases k,
{
    if k == 0 {
        assert(1 * 1 == 1) by (nonlinear_arith);
    } else {
        lemma_two_five((k - 1) as nat);
        let x = two((k - 1) as nat);
        let y = five((k - 1) as nat);
        assert((2 * x) * (5 * y) == 10 * (x * y)) by (nonlinear_arith);
    }
}

/// The number that the places from an index on denote.
fn upper_value(v: &Vec<u8>, from: usize) -> (r: u64)
    requires
        are_places(v@),
        from <= v@.len() <= from + 18,
    ensures
        r == places_value(v@.skip(from as int)),
{
    let mut r: u64 = 0;
    let mut i: usize = v.len();
    assert(v@.skip(v@.len() as int) =~= Seq::<u8>::empty());
    while i > from
        invariant
            are_places(v@),
            from <= i <= v@.len() <= from + 18,
            r == places_value(v@.skip(i as int)),
        decreases i,
    {
        proof {
            lemma_part_places(v@, i as int);
            lemma_places_bound(v@.skip(i as int));
            lemma_ten_grows((v@.len() - i) as nat, 18);
            assert(ten(18) == 1_000_000_000_000_000_000) by {
                reveal_with_fuel(ten, 19);
            }
            let upper = v@.skip(i - 1);
            assert(upper.skip(1) =~= v@.skip(i as int));
            assert(upper.take(1) =~= seq![v@[i - 1]]);
            lemma_places_split(upper, 1);
            assert(places_value(seq![v@[i - 1]]) == v@[i - 1]) by {
                reveal_with_fuel(places_value, 2);
                let d = v@[i - 1] as nat;
                assert(seq![v@[i - 1]].drop_last() =~= Seq::<u8>::empty());
                assert(d * 1 == d) by (nonlinear_arith);
            }
            assert(ten(1) == 10) by {
                reveal_with_fuel(ten, 2);
            }
            assert(v@[i - 1] <= 9);
        }
        i = i - 1;
        r = 10 * r + v[i] as u64;
    }
    r
}

/// The number without its lower places, where few are left.
fn few_places(v: &Vec<u8>, k: u128) -> (r: Option<u64>)
    requires
        is_number(v@),
    ensures
        r matches Some(q) ==> q == places_value(v@) / ten(k as nat),
        r is None ==> places_value(v@) / ten(k as nat) >= ten(16),
{
    if v.len() as u128 <= k {
        proof {
            lemma_places_small(v@, k as nat);
        }
        return Some(0);
    }
    let from: usize = k as usize;
    proof {
        lemma_places_divided(v@, k as nat);
    }
    if v.len() - from > 16 {
        proof {
            let upper = v@.skip(from as int);
            lemma_part_places(v@, from as int);
            assert(upper.last() == v@.last());
            lemma_number_bounds(upper);
            lemma_ten_grows(16, (upper.len() - 1) as nat);
        }
        return None;
    }
    Some(upper_value(v, from))
}

/// How the lower places stand to half of a unit of the upper ones.
pub(crate) enum Half {
    /// Less than half.
    Below,
    /// Half.
    Tie,
    /// More than half.
    Above,
}

/// Whether a remainder is less than half of the divisor, half of it or more.
pub(crate) open spec fn half_of(rest: nat, den: nat) -> Half {
    if 2 * rest < den {
        Half::Below
    } else if 2 * rest == den {
        Half::Tie
    } else {
        Half::Above
    }
}

/// How the lower places stand to half of a unit of the upper ones.
pub(crate) fn lower_half(v: &Vec<u8>, k: u128) -> (r: Half)
    requires
        is_number(v@),
    ensures
        r == half_of(places_value(v@) % ten(k as nat), ten(k as nat)),
{
    if k == 0 {
        proof {
            lemma_places_divided(v@, 0);
            assert(v@.take(0).len() == 0);
        }
        return Half::Below;
    }
    let ghost j = (k - 1) as nat;
    assert(ten(k as nat) == 10 * ten(j));
    if (v.len() as u128) < k {
        proof {
            lemma_places_small(v@, k as nat);
            lemma_places_small(v@, j);
        }
        return Half::Below;
    }
    let at: usize = (k - 1) as usize;
    let ghost rest = v@.take(k as int);
    let ghost low = v@.take(at as int);
    let ghost p = ten(j);
    proof {
        lemma_places_divided(v@, k as nat);
        lemma_part_places(v@, at as int);
        lemma_places_bound(low);
        assert(rest.drop_last() =~= low);
        assert(rest.last() == v@[at as int]);
    }
    let d: u8 = v[at];
    assert(places_value(rest) == places_value(low) + d as nat * p);
    if d > 5 {
        assert(d as nat * p >= 6 * p) by (nonlinear_arith)
            requires
                d >= 6,
        ;
        return Half::Above;
    }
    if d < 5 {
        assert(d as nat * p <= 4 * p) by (nonlinear_arith)
            requires
                d <= 4,
        ;
        return Half::Below;
    }
    assert(5 * p == d as nat * p);
    let mut i: usize = 0;
    while i < at
        invariant
            i <= at < v@.len(),
            low == v@.take(at as int),
            places_value(rest) == places_value(low) + 5 * p,
            places_value(v@) % ten(k as nat) == places_value(rest),
            ten(k as nat) == 10 * p,
            forall|x: int| 0 <= x < i ==> low[x] == 0,
        decreases at - i,
    {
        assert(low[i as int] == v@[i as int]);
        if v[i] > 0 {
            proof {
                lemma_places_positive(low, i as int);
            }
            return Half::Above;
        }
        i = i + 1;
    }
    proof {
        lemma_zero_places(at as nat);
        assert(low =~= Seq::new(at as nat, |x: int| 0u8));
    }
    Half::Tie
}

// ---------------------------------------------------------------------------
// The nearest float
// ---------------------------------------------------------------------------

/// A quotient of natural numbers is one.
proof fn lemma_quotient_natural(v: nat, k: nat)
    ensures
        v / ten(k) >= 0,
{
    lemma_ten_positive(k);
    let t = ten(k);
    assert(v / t >= 0) by (nonlinear_arith)
        requires
            t > 0,
            v >= 0,
    ;
}

/// Five times a number, with one more place dropped, is half of what it was.
proof fn lemma_half_step(v: nat, k: nat)
    ensures
        (5 * v) / ten(k + 1) == (v / ten(k)) / 2,
{
    lemma_ten_positive(k);
    let t = ten(k);
    assert(ten(k + 1) == 10 * t);
    lemma_div_denominator(v as int, t as int, 2);
    assert((5 * v) / (10 * t) == v / (t * 2)) by {
        assert(t * 2 > 0);
        lemma_common_factor(v, t * 2, 5);
        assert(v * 5 == 5 * v);
        assert((t * 2) * 5 == 10 * t);
    }
}

/// The same for several steps, while the number stays large.
proof fn lemma_half_steps(v: nat, k: nat, j: nat)
    requires
        v / ten(k) >= two(52 + j),
    ensures
        exponent_of(v / ten(k)) == j + exponent_of((v * five(j)) / ten(k + j)),
        ((v * five(j)) / ten(k + j)) * two(j) <= v / ten(k),
    decreases j,
{
    let q = v / ten(k);
    if j == 0 {
        let x = five(0);
        let y = two(0);
        assert(v * x == v) by (nonlinear_arith)
            requires
                x == 1,
        ;
        assert(q * y == q) by (nonlinear_arith)
            requires
                y == 1,
        ;
    } else {
        let i = (j - 1) as nat;
        lemma_half_step(v, k);
        lemma_powers();
        lemma_two_grows(53, 52 + j);
        assert((52 + j) as nat == (52 + i) + 1);
        lemma_two_halves(52 + i, q);
        lemma_half_steps(5 * v, k + 1, i);
        let x = five(i);
        let y = five(j);
        assert(v * y == (5 * v) * x) by (nonlinear_arith)
            requires
                y == 5 * x,
        ;
        assert(k + 1 + i == k + j);
        assert(exponent_of(q) == 1 + exponent_of(q / 2));
        lemma_quotient_natural(v * y, k + j);
        let r = (v * five(j)) / ten(k + j);
        let p = two(i);
        assert(r * (2 * p) == 2 * (r * p)) by (nonlinear_arith);
    }
}

/// The float nearest to a number of places at a scale.
#[verifier::spinoff_prover]
pub(crate) fn nearest_float(number: Vec<u8>, scale: i128) -> (r: (u64, u128))
    requires
        is_number(number@),
        -0x1_0000_0000_0000_0000_0000 < scale < 0x1_0000_0000_0000_0000_0000,
    ensures
        (r.0 as nat, r.1 as nat) == nearest(places_value(number@), scale as int),
{
    let mut v = number;
    let ghost m = places_value(v@);
    let ghost num = units_num(m, scale as int);
    let ghost den = units_den(scale as int);
    let mut k: u128 = 0;
    if scale >= 0 {
        multiply_by_tens(&mut v, scale as u128);
    } else {
        k = (-scale) as u128;
    }
    multiply_by_twos(&mut v, 1074);
    let len: usize = v.len();
    let ghost k0 = k as nat;
    let ghost q0 = num / den;
    assert(places_value(v@) == num);
    assert(den == ten(k0));
    let mut e: u128 = 0;
    proof {
        lemma_units_den(scale as int);
        lemma_number_bounds(v@);
        assert(num * 1 == num) by (nonlinear_arith);
        assert(q0 * 1 == q0) by (nonlinear_arith);
        assert(q0 <= num) by (nonlinear_arith)
            requires
                q0 == num / den,
                den >= 1,
        ;
        lemma_ten_below_two_bits(len as nat);
        lemma_powers();
        assert(ten(16) >= MANTISSA_LIMIT && ten(24) >= two(62)) by {
            lemma_ten_values();
        }
    }
    while v.len() as u128 > k + 24
        invariant
            is_number(v@),
            len <= usize::MAX,
            k == k0 + e,
            k0 <= 0x1_0000_0000_0000_0000_0000,
            q0 < two(4 * len as nat),
            q0 == num / ten(k0),
            places_value(v@) == num * five(e as nat),
            exponent_of(q0) == e + exponent_of(places_value(v@) / ten(k as nat)),
            (places_value(v@) / ten(k as nat)) * two(e as nat) <= q0,
            e <= 4 * len + 10,
            ten(24) >= two(62),
        decreases places_value(v@) / ten(k as nat),
    {
        let ghost before = places_value(v@);
        let ghost q = before / ten(k as nat);
        proof {
            lemma_large(v@, k as nat, 24);
            lemma_two_positive(62);
            lemma_bounded_exponent(q, q0, e as nat, 4 * len as nat);
            lemma_half_steps(before, k as nat, 10);
            lemma_five_adds(e as nat, 10);
            lemma_five_ten();
            lemma_two_adds(e as nat, 10);
            let x = five(e as nat);
            assert(9_765_625 * (num * x) == num * (x * 9_765_625)) by (nonlinear_arith);
            let y = five(10);
            assert(before * y == 9_765_625 * before) by (nonlinear_arith)
                requires
                    y == 9_765_625,
            ;
        }
        multiply(&mut v, 9_765_625);
        k = k + 10;
        e = e + 10;
        proof {
            let r = places_value(v@) / ten(k as nat);
            lemma_quotient_natural(places_value(v@), k as nat);
            let p = two((e - 10) as nat);
            let t = two(10);
            assert(t == 1024) by {
                reveal_with_fuel(two, 11);
            }
            assert(r * t <= q);
            assert(r * (p * t) <= q * p) by (nonlinear_arith)
                requires
                    r * t <= q,
            ;
            assert(r < q) by (nonlinear_arith)
                requires
                    r * t <= q,
                    t >= 2,
                    q >= 1,
            ;
        }
    }
    loop
        invariant_except_break
            is_number(v@),
            len <= usize::MAX,
            k == k0 + e,
            k0 <= 0x1_0000_0000_0000_0000_0000,
            q0 < two(4 * len as nat),
            q0 == num / ten(k0),
            places_value(v@) == num * five(e as nat),
            exponent_of(q0) == e + exponent_of(places_value(v@) / ten(k as nat)),
            (places_value(v@) / ten(k as nat)) * two(e as nat) <= q0,
            e <= 4 * len + 10,
            ten(16) >= MANTISSA_LIMIT,
        ensures
            is_number(v@),
            k == k0 + e,
            places_value(v@) == num * five(e as nat),
            e == exponent_of(q0),
            places_value(v@) / ten(k as nat) < MANTISSA_LIMIT,
            e <= 4 * len + 10,
        decreases places_value(v@) / ten(k as nat),
    {
        let ghost before = places_value(v@);
        let ghost q = before / ten(k as nat);
        let few = few_places(&v, k);
        let small = match few {
            Some(q) => q < MANTISSA_LIMIT,
            None => false,
        };
        if small {
            break;
        }
        proof {
            lemma_powers();
            lemma_bounded_exponent(q, q0, e as nat, 4 * len as nat);
            lemma_half_steps(before, k as nat, 1);
            lemma_five_adds(e as nat, 1);
            lemma_two_adds(e as nat, 1);
            assert(five(1) == 5) by {
                reveal_with_fuel(five, 2);
            }
            let x = five(e as nat);
            assert(5 * (num * x) == num * (x * 5)) by (nonlinear_arith);
            let y = five(1);
            assert(before * y == 5 * before) by (nonlinear_arith)
                requires
                    y == 5,
            ;
        }
        multiply(&mut v, 5);
        k = k + 1;
        e = e + 1;
        proof {
            let r = places_value(v@) / ten(k as nat);
            lemma_quotient_natural(places_value(v@), k as nat);
            let p = two((e - 1) as nat);
            let t = two(1);
            assert(t == 2) by {
                reveal_with_fuel(two, 2);
            }
            assert(r * (p * t) <= q * p) by (nonlinear_arith)
                requires
                    r * t <= q,
            ;
            assert(r < q) by (nonlinear_arith)
                requires
                    r * t <= q,
                    t >= 2,
                    q >= 1,
            ;
        }
    }
    proof {
        lemma_two_five(e as nat);
        lemma_ten_adds(k0, e as nat);
        lemma_five_positive(e as nat);
        lemma_two_positive(e as nat);
        let p = two(e as nat);
        let f = five(e as nat);
        let unit = den * p;
        assert(unit > 0) by (nonlinear_arith)
            requires
                den > 0,
                p > 0,
                unit == den * p,
        ;
        assert((den * p) * f == den * (p * f)) by (nonlinear_arith);
        lemma_common_factor(num, unit, f);
    }
    let whole: u64 = match few_places(&v, k) {
        Some(q) => q,
        None => 0,
    };
    let up = match lower_half(&v, k) {
        Half::Below => false,
        Half::Tie => whole % 2 == 1,
        Half::Above => true,
    };
    let mantissa: u64 = if up {
        whole + 1
    } else {
        whole
    };
    if mantissa == MANTISSA_LIMIT {
        (MANTISSA_LIMIT / 2, e + 1)
    } else {
        (mantissa, e)
    }
}

/// Powers of ten as numbers.
proof fn lemma_ten_values()
    ensures
        ten(16) == 10_000_000_000_000_000,
        ten(24) >= two(62),
{
    assert(ten(8) == 100_000_000) by {
        reveal_with_fuel(ten, 9);
    }
    lemma_ten_adds(8, 8);
    lemma_ten_adds(16, 8);
    assert(ten(24) == 10_000_000_000_000_000 * 100_000_000);
    lemma_powers();
    assert(two(61) == 2 * two(60));
    assert(two(62) == 2 * two(61));
}

/// Ten is less than sixteen, power for power.
proof fn lemma_ten_below_two_bits(k: nat)
    ensures
        ten(k) <= two(4 * k),
    decreases k,
{
    if k > 0 {
        lemma_ten_below_two_bits((k - 1) as nat);
        let j = (k - 1) as nat;
        assert(two(4 * k) == 16 * two(4 * j)) by {
            reveal_with_fuel(two, 5);
        }
    }
}

/// Many places above a power of ten make a large quotient.
proof fn lemma_large(s: Seq<u8>, k: nat, j: nat)
    requires
        is_number(s),
        s.len() > k + j,
    ensures
        places_value(s) / ten(k) >= ten(j),
{
    lemma_places_divided(s, k);
    lemma_part_places(s, k as int);
    let upper = s.skip(k as int);
    assert(upper.last() == s.last());
    lemma_number_bounds(upper);
    lemma_ten_grows(j, (upper.len() - 1) as nat);
}

/// A number that was halved and is not zero was halved only so often.
proof fn lemma_bounded_exponent(q: nat, q0: nat, e: nat, bits: nat)
    requires
        q >= 1,
        q * two(e) <= q0,
        q0 < two(bits),
    ensures
        e < bits,
{
    let p = two(e);
    assert(q * p >= p) by (nonlinear_arith)
        requires
            q >= 1,
    ;
    if e >= bits {
        lemma_two_grows(bits, e);
    }
}

}
