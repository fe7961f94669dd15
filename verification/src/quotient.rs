//! Quotients as double-precision arithmetic gives them: rounded to 53 binary
//! digits, halves to even.

use crate::digits::{lemma_two_adds, lemma_two_grows, lemma_two_positive, two};
use vstd::prelude::*;

verus! {

/// `num / den` to the nearest whole number, halves to the even one.
pub open spec fn nearest_even(num: nat, den: nat) -> nat {
    let whole = num / den;
    let rest = num % den;
    if 2 * rest > den || (2 * rest == den && whole % 2 == 1) {
        whole + 1
    } else {
        whole
    }
}

/// `num / den`, scaled by `2^s`, has 53 binary digits before the point.
pub open spec fn fills_53(num: nat, den: nat, s: nat) -> bool {
    two(52) * den <= num * two(s) < two(53) * den
}

/// The scale of the float nearest to `num / den`, for quotients below 2^53.
pub open spec fn float_scale(num: nat, den: nat) -> nat {
    choose|s: nat| fills_53(num, den, s)
}

/// The digits of the float nearest to `num / den`: that float is this number
/// divided by two to the power of the scale.
pub open spec fn float_digits(num: nat, den: nat) -> nat {
    nearest_even(num * two(float_scale(num, den)), den)
}

/// At most one scale fits.
proof fn lemma_one_scale(num: nat, den: nat, s: nat, t: nat)
    requires
        fills_53(num, den, s),
        fills_53(num, den, t),
    ensures
        s == t,
{
    if s < t {
        lemma_scales_differ(num, den, s, t);
    } else if t < s {
        lemma_scales_differ(num, den, t, s);
    }
}

/// A larger scale at least doubles.
proof fn lemma_scales_differ(num: nat, den: nat, s: nat, t: nat)
    requires
        s < t,
        fills_53(num, den, s),
    ensures
        !fills_53(num, den, t),
{
    lemma_two_grows(s + 1, t);
    let x = two(s);
    let y = two(t);
    assert(two(s + 1) == 2 * x);
    assert(two(53) == 2 * two(52));
    let c = two(52);
    assert(num * y >= 2 * (num * x)) by (nonlinear_arith)
        requires
            y >= 2 * x,
    ;
    assert((2 * c) * den == 2 * (c * den)) by (nonlinear_arith);
}

/// The scale that fits is the scale of the float.
proof fn lemma_float_scale(num: nat, den: nat, s: nat)
    requires
        fills_53(num, den, s),
    ensures
        float_scale(num, den) == s,
{
    lemma_one_scale(num, den, s, float_scale(num, den));
}

/// Common factors do not change a quotient.
pub proof fn lemma_common_factor(num: nat, den: nat, c: nat)
    requires
        den > 0,
        c > 0,
    ensures
        nearest_even(num * c, den * c) == nearest_even(num, den),
        (num * c) / (den * c) == num / den,
{
    let whole = num / den;
    let rest = num % den;
    assert(num == whole * den + rest && rest < den) by (nonlinear_arith)
        requires
            den > 0,
            whole == num / den,
            rest == num % den,
    ;
    let big = den * c;
    let r = rest * c;
    assert(num * c == whole * big + r) by (nonlinear_arith)
        requires
            num == whole * den + rest,
            big == den * c,
            r == rest * c,
    ;
    assert(r < big) by (nonlinear_arith)
        requires
            rest < den,
            c > 0,
            big == den * c,
            r == rest * c,
    ;
    assert((num * c) / big == whole && (num * c) % big == r) by {
        vstd::arithmetic::div_mod::lemma_fundamental_div_mod_converse(
            (num * c) as int,
            big as int,
            whole as int,
            r as int,
        );
    }
    assert(2 * r > big <==> 2 * rest > den) by (nonlinear_arith)
        requires
            c > 0,
            big == den * c,
            r == rest * c,
    ;
    assert(2 * r == big <==> 2 * rest == den) by (nonlinear_arith)
        requires
            c > 0,
            big == den * c,
            r == rest * c,
    ;
}

/// Powers of two as numbers.
pub proof fn lemma_powers()
    ensures
        two(20) == 0x10_0000,
        two(30) == 0x4000_0000,
        two(52) == 0x10_0000_0000_0000,
        two(53) == 0x20_0000_0000_0000,
        two(60) == 0x1000_0000_0000_0000,
        two(117) == two(53) * two(64),
        two(64) == 0x1_0000_0000_0000_0000,
{
    assert(two(13) == 0x2000) by {
        reveal_with_fuel(two, 14);
    }
    assert(two(10) == 0x400) by {
        reveal_with_fuel(two, 11);
    }
    lemma_two_adds(10, 10);
    lemma_two_adds(20, 10);
    assert(two(20) == 0x10_0000);
    assert(two(30) == 0x4000_0000);
    lemma_two_adds(13, 13);
    assert(two(26) == 0x400_0000);
    lemma_two_adds(26, 26);
    assert(two(52) == 0x400_0000 * 0x400_0000);
    lemma_two_adds(30, 30);
    assert(two(60) == 0x4000_0000 * 0x4000_0000);
    assert(two(53) == 2 * two(52));
    assert(two(61) == 2 * two(60));
    assert(two(62) == 2 * two(61));
    assert(two(63) == 2 * two(62));
    assert(two(64) == 2 * two(63));
    lemma_two_adds(53, 64);
}

/// The nearest whole number of a quotient.
fn round_even(num: u128, den: u128) -> (r: u128)
    requires
        0 < den < 0x8000_0000_0000_0000_0000_0000_0000_0000,
        num < 0x8000_0000_0000_0000_0000_0000_0000_0000,
    ensures
        r == nearest_even(num as nat, den as nat),
{
    let whole: u128 = num / den;
    let rest: u128 = num % den;
    assert(whole <= num) by (nonlinear_arith)
        requires
            whole == num / den,
            den > 0,
    ;
    if 2 * rest > den || (2 * rest == den && whole % 2 == 1) {
        whole + 1
    } else {
        whole
    }
}

/// The scale of the float nearest to a quotient, and the scaled numerator.
fn find_scale(num: u64, den: u64) -> (r: (u64, u128))
    requires
        num > 0,
        den > 0,
        num < two(53) * den,
    ensures
        fills_53(num as nat, den as nat, r.0 as nat),
        r.1 == num * two(r.0 as nat),
        r.0 < 117,
{
    proof {
        lemma_powers();
    }
    let limit: u128 = 0x10_0000_0000_0000 * den as u128;
    let mut x: u128 = num as u128;
    let mut s: u64 = 0;
    assert(num * 1 == num) by (nonlinear_arith);
    while x < limit
        invariant
            num > 0,
            den > 0,
            limit == two(52) * den,
            two(52) == 0x10_0000_0000_0000,
            two(53) == 2 * two(52),
            x == num * two(s as nat),
            x < two(53) * den,
            x > 0,
            s < 117,
            limit <= 0x10_0000_0000_0000 * 0xffff_ffff_ffff_ffff,
        decreases 117 - s,
    {
        proof {
            let p = two(s as nat);
            assert(two((s + 1) as nat) == 2 * p);
            assert(num * (2 * p) == 2 * (num * p)) by (nonlinear_arith);
            assert((2 * two(52)) * den == 2 * (two(52) * den)) by (nonlinear_arith);
            if s + 1 >= 117 {
                lemma_powers();
                lemma_two_grows(117, (s + 1) as nat);
                assert(num * (2 * p) >= 2 * p) by (nonlinear_arith)
                    requires
                        num > 0,
                ;
                assert(two(53) * den < two(53) * two(64)) by (nonlinear_arith)
                    requires
                        den < two(64),
                        two(53) > 0,
                ;
                assert(false);
            }
        }
        x = 2 * x;
        s = s + 1;
    }
    (s, x)
}

/// The digits and the scale of the float nearest to a quotient.
fn nearest_float(num: u64, den: u64) -> (r: (u64, u64))
    requires
        num > 0,
        0 < den <= two(53),
        num < two(53) * den,
    ensures
        r.0 == float_digits(num as nat, den as nat),
        r.1 == float_scale(num as nat, den as nat),
        fills_53(num as nat, den as nat, r.1 as nat),
        two(52) <= r.0 <= two(53),
        r.1 < 117,
{
    proof {
        lemma_powers();
    }
    let (s, x) = find_scale(num, den);
    proof {
        lemma_float_scale(num as nat, den as nat, s as nat);
        let q = x as nat / den as nat;
        let d = den as nat;
        let lo = two(52);
        let hi = two(53);
        assert(lo <= q < hi) by (nonlinear_arith)
            requires
                lo * d <= x,
                x < hi * d,
                q == x as nat / d,
                d > 0,
        ;
        assert(hi * d <= 0x20_0000_0000_0000 * 0x20_0000_0000_0000) by (nonlinear_arith)
            requires
                d <= 0x20_0000_0000_0000,
                hi == 0x20_0000_0000_0000,
        ;
    }
    let digits = round_even(x, den as u128);
    (digits as u64, s)
}

// ---------------------------------------------------------------------------
// Durations
// ---------------------------------------------------------------------------

/// Nanoseconds in a second.
pub const NANOS_PER_SEC: u64 = 1_000_000_000;

/// A duration divided by a number of hundredths, as double-precision
/// arithmetic on seconds gives it, to the nearest nanosecond: the seconds, the
/// divisor and their quotient are floats.
pub open spec fn divided(duration_ns: nat, hundredths: nat) -> nat {
    let seconds = float_digits(duration_ns, NANOS_PER_SEC as nat);
    let seconds_scale = float_scale(duration_ns, NANOS_PER_SEC as nat);
    let divisor = float_digits(hundredths, 100);
    let divisor_scale = float_scale(hundredths, 100);
    let num = seconds * two(divisor_scale);
    let den = divisor * two(seconds_scale);
    nearest_even(float_digits(num, den) * NANOS_PER_SEC as nat, two(float_scale(num, den)))
}

/// A power of two.
fn power(s: u64) -> (r: u128)
    requires
        s < 120,
    ensures
        r == two(s as nat),
{
    let mut r: u128 = 1;
    let mut i: u64 = 0;
    while i < s
        invariant
            i <= s < 120,
            r == two(i as nat),
        decreases s - i,
    {
        proof {
            lemma_powers();
            lemma_two_grows((i + 1) as nat, 120);
            lemma_two_adds(60, 60);
        }
        r = 2 * r;
        i = i + 1;
    }
    r
}

/// Where the scales of the seconds and of the divisor lie.
pub proof fn lemma_scales(duration: nat, hundredths: nat, ds: nat, fs: nat)
    requires
        75_000_000 <= duration <= 2_000_000_000,
        0 < hundredths <= 0xffff_ffff,
        fills_53(duration, 1_000_000_000, ds),
        fills_53(hundredths, 100, fs),
    ensures
        51 <= ds <= 56,
        fs <= 59,
{
    lemma_powers();
    assert(two(51) * 2 == two(52));
    assert(two(57) == 0x200_0000_0000_0000) by {
        assert(two(54) == 2 * two(53));
        assert(two(55) == 2 * two(54));
        assert(two(56) == 2 * two(55));
        assert(two(57) == 2 * two(56));
    }
    if ds < 51 {
        lemma_two_grows(ds, 50);
        assert(two(51) == 2 * two(50));
        let p = two(ds);
        assert(duration * p <= 2_000_000_000 * two(50)) by (nonlinear_arith)
            requires
                duration <= 2_000_000_000,
                p <= two(50),
        ;
        assert(false);
    }
    if ds > 56 {
        lemma_two_grows(57, ds);
        let p = two(ds);
        assert(duration * p >= 75_000_000 * 0x200_0000_0000_0000) by (nonlinear_arith)
            requires
                duration >= 75_000_000,
                p >= 0x200_0000_0000_0000,
        ;
        assert(false);
    }
    if fs > 59 {
        lemma_two_grows(60, fs);
        let p = two(fs);
        assert(hundredths * p >= p) by (nonlinear_arith)
            requires
                hundredths >= 1,
        ;
        assert(false);
    }
}

/// The float of a quotient of two floats, from the quotient of their digits.
proof fn lemma_float_quotient(a: nat, b: nat, fs: nat, ds: nat, t: nat, qs: nat)
    requires
        b > 0,
        fills_53(a, b, t),
        fs + qs == t + ds,
    ensures
        float_scale(a * two(fs), b * two(ds)) == qs,
        float_digits(a * two(fs), b * two(ds)) == nearest_even(a * two(t), b),
{
    let num = a * two(fs);
    let den = b * two(ds);
    let c = two(ds);
    lemma_two_positive(ds);
    lemma_two_adds(fs, qs);
    lemma_two_adds(t, ds);
    let x = two(fs);
    let y = two(qs);
    let z = two(t);
    assert(num * y == (a * z) * c) by (nonlinear_arith)
        requires
            num == a * x,
            x * y == z * c,
    ;
    let lo = two(52);
    let hi = two(53);
    assert(lo * (b * c) <= (a * z) * c) by (nonlinear_arith)
        requires
            lo * b <= a * z,
    ;
    assert((a * z) * c < hi * (b * c)) by (nonlinear_arith)
        requires
            a * z < hi * b,
            c >= 1,
    ;
    assert(fills_53(num, den, qs));
    lemma_float_scale(num, den, qs);
    lemma_common_factor(a * z, b, c);
}

/// A duration divided by a number of hundredths.
pub(crate) fn divide(duration_ns: u64, hundredths: u32) -> (r: u64)
    requires
        75_000_000 <= duration_ns <= 2_000_000_000,
        hundredths > 0,
    ensures
        r == divided(duration_ns as nat, hundredths as nat),
{
    proof {
        lemma_powers();
    }
    let (seconds, ds) = nearest_float(duration_ns, NANOS_PER_SEC);
    let (divisor, fs) = nearest_float(hundredths as u64, 100);
    proof {
        lemma_scales(duration_ns as nat, hundredths as nat, ds as nat, fs as nat);
        let b = divisor as nat;
        assert(seconds < two(53) * b) by (nonlinear_arith)
            requires
                seconds <= two(53),
                b >= 2,
                two(53) >= 1,
        ;
    }
    let (digits, t) = nearest_float(seconds, divisor);
    proof {
        lemma_quotient_scale(seconds as nat, divisor as nat, t as nat);
    }
    let qs: u64 = t + ds - fs;
    proof {
        lemma_float_quotient(
            seconds as nat,
            divisor as nat,
            fs as nat,
            ds as nat,
            t as nat,
            qs as nat,
        );
        lemma_two_grows(43, qs as nat);
        lemma_two_grows(qs as nat, 110);
        lemma_two_adds(60, 50);
        lemma_two_adds(30, 20);
        assert(two(43) >= two(30)) by {
            lemma_two_grows(30, 43);
        }
    }
    let scaled: u128 = digits as u128 * NANOS_PER_SEC as u128;
    let unit = power(qs);
    let r = round_even(scaled, unit);
    assert(scaled / unit <= scaled / 0x4000_0000) by (nonlinear_arith)
        requires
            unit >= 0x4000_0000,
    ;
    r as u64
}

/// The quotient of two floats' digits lies between one half and two.
proof fn lemma_quotient_scale(a: nat, b: nat, t: nat)
    requires
        two(52) <= a <= two(53),
        two(52) <= b <= two(53),
        fills_53(a, b, t),
    ensures
        51 <= t <= 53,
{
    lemma_powers();
    let c = two(52);
    let p = two(t);
    if t < 51 {
        lemma_two_grows(t, 50);
        assert(two(51) == 2 * two(50));
        assert(two(52) == 2 * two(51));
        assert(2 * (a * p) <= c * c) by (nonlinear_arith)
            requires
                a <= 2 * c,
                4 * p <= c,
        ;
        assert(c * b >= c * c) by (nonlinear_arith)
            requires
                b >= c,
        ;
        assert(c * c > 0) by (nonlinear_arith)
            requires
                c > 0,
        ;
    }
    if t > 53 {
        lemma_two_grows(54, t);
        assert(two(54) == 2 * two(53));
        assert(a * p >= (2 * c) * (2 * c)) by (nonlinear_arith)
            requires
                a >= c,
                p >= 4 * c,
        ;
        assert((2 * c) * b <= (2 * c) * (2 * c)) by (nonlinear_arith)
            requires
                b <= 2 * c,
        ;
    }
}

}
