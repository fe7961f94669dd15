//! How the speed of the emulator bears on its waits.

use crate::digits::{lemma_two_grows, lemma_two_positive, two};
use crate::emulator::scaled;
use crate::quotient::{
    divided, fills_53, float_digits, float_scale, lemma_powers, lemma_scales, nearest_even,
};
use vstd::prelude::*;

verus! {

/// The nearest whole number is at most one half off.
proof fn lemma_half_off(num: nat, den: nat)
    requires
        den > 0,
    ensures
        2 * num <= 2 * (nearest_even(num, den) * den) + den,
        2 * (nearest_even(num, den) * den) <= 2 * num + den,
{
    let whole = num / den;
    let rest = num % den;
    assert(num == whole * den + rest && rest < den) by (nonlinear_arith)
        requires
            den > 0,
            whole == num / den,
            rest == num % den,
    ;
    assert((whole + 1) * den == whole * den + den) by (nonlinear_arith);
}

/// A quotient below 2^53 has a scale.
proof fn lemma_scale_exists(num: nat, den: nat, s: nat)
    requires
        num > 0,
        den > 0,
        num * two(s) < two(53) * den,
    ensures
        exists|t: nat| fills_53(num, den, t),
    decreases two(53) * den - num * two(s),
{
    if two(52) * den <= num * two(s) {
        assert(fills_53(num, den, s));
    } else {
        let c = two(52);
        let p = two(s);
        lemma_two_positive(s);
        assert(two(53) == 2 * c);
        assert(two(s + 1) == 2 * p);
        assert(num * (2 * p) == 2 * (num * p)) by (nonlinear_arith);
        assert((2 * c) * den == 2 * (c * den)) by (nonlinear_arith);
        assert(num * p > 0) by (nonlinear_arith)
            requires
                num > 0,
                p > 0,
        ;
        lemma_scale_exists(num, den, s + 1);
    }
}

/// The float of a quotient: its digits, and how near it is. With `n` for 2^52,
/// the error is at most one part in `2 * n`.
proof fn lemma_float_is_near(num: nat, den: nat)
    requires
        num > 0,
        den > 0,
        num < two(53) * den,
    ensures
        ({
            let n = two(52);
            let s = two(float_scale(num, den));
            let d = float_digits(num, den);
            &&& fills_53(num, den, float_scale(num, den))
            &&& s > 0
            &&& n <= d <= 2 * n
            &&& (2 * n - 1) * (num * s) <= (2 * n) * (d * den)
            &&& (2 * n) * (d * den) <= (2 * n + 1) * (num * s)
        }),
{
    assert(num * two(0) == num) by (nonlinear_arith)
        requires
            two(0) == 1,
    ;
    lemma_scale_exists(num, den, 0);
    let scale = float_scale(num, den);
    let n = two(52) as int;
    let s = two(scale) as int;
    let d = float_digits(num, den) as int;
    lemma_two_positive(scale);
    lemma_powers();
    let x = num * two(scale);
    lemma_half_off(x, den);
    let y = x as int;
    let e = den as int;
    assert(n * e <= y < 2 * n * e) by (nonlinear_arith)
        requires
            two(52) * den <= x < two(53) * den,
            n == two(52),
            two(53) == 2 * two(52),
            y == x,
            e == den,
    ;
    assert(n <= d) by (nonlinear_arith)
        requires
            n * e <= y,
            2 * y <= 2 * (d * e) + e,
            e > 0,
    ;
    assert(d <= 2 * n) by (nonlinear_arith)
        requires
            y < 2 * n * e,
            2 * (d * e) <= 2 * y + e,
            e > 0,
    ;
    assert((2 * n - 1) * y <= (2 * n) * (d * e)) by (nonlinear_arith)
        requires
            n * e <= y,
            2 * y <= 2 * (d * e) + e,
            n > 0,
    ;
    assert((2 * n) * (d * e) <= (2 * n + 1) * y) by (nonlinear_arith)
        requires
            n * e <= y,
            2 * (d * e) <= 2 * y + e,
            n > 0,
    ;
}

/// A positive factor can be left out.
proof fn lemma_leave_out(a: int, b: int, c: int)
    requires
        c > 0,
        a * c <= b * c,
    ensures
        a <= b,
{
    assert(a <= b) by (nonlinear_arith)
        requires
            c > 0,
            a * c <= b * c,
    ;
}

/// A product of positive numbers is positive.
proof fn lemma_positive(a: int, b: int)
    requires
        a > 0,
        b > 0,
    ensures
        a * b > 0,
{
    assert(a * b > 0) by (nonlinear_arith)
        requires
            a > 0,
            b > 0,
    ;
}

/// The errors of the three floats together, from above.
proof fn lemma_from_above(
    n: int,
    a: int,
    b: int,
    q: int,
    x: int,
    y: int,
    z: int,
    g: int,
    d: int,
    p: int,
)
    requires
        n > 4,
        a > 0 && b > 0 && q > 0 && x > 0 && y > 0 && z > 0 && g > 0 && d > 0 && p > 0,
        (2 * n) * (a * g) <= (2 * n + 1) * (d * x),
        (2 * n - 1) * (p * y) <= (2 * n) * (b * 100),
        (2 * n) * (q * (b * x)) <= (2 * n + 1) * ((a * y) * z),
    ensures
        n * (q * g * p) <= (n + 2) * (100 * d * z),
{
    let m = 2 * n;
    let k = m + 1;
    lemma_positive(m, g);
    lemma_positive(k, y);
    lemma_positive(k * y, z);
    assert((m * (q * (b * x))) * (m * g) <= (k * ((a * y) * z)) * (m * g)) by (nonlinear_arith)
        requires
            m * (q * (b * x)) <= k * ((a * y) * z),
            m * g > 0,
    ;
    assert((k * ((a * y) * z)) * (m * g) == (k * y * z) * (m * (a * g))) by (nonlinear_arith);
    assert((k * y * z) * (m * (a * g)) <= (k * y * z) * (k * (d * x))) by (nonlinear_arith)
        requires
            m * (a * g) <= k * (d * x),
            k * y * z > 0,
    ;
    let left = q * b * (m * m * g);
    let right = k * k * (y * z * d);
    assert((m * (q * (b * x))) * (m * g) == left * x) by (nonlinear_arith)
        requires
            left == q * b * (m * m * g),
    ;
    assert((k * y * z) * (k * (d * x)) == right * x) by (nonlinear_arith)
        requires
            right == k * k * (y * z * d),
    ;
    lemma_leave_out(left, right, x);
    let w = q * g * m;
    lemma_positive(q, g);
    lemma_positive(q * g, m);
    assert(w * ((m - 1) * (p * y)) <= w * (m * (b * 100))) by (nonlinear_arith)
        requires
            (m - 1) * (p * y) <= m * (b * 100),
            w >= 0,
    ;
    assert(w * (m * (b * 100)) == 100 * left) by (nonlinear_arith)
        requires
            w == q * g * m,
            left == q * b * (m * m * g),
    ;
    let t = q * g * p;
    let u = 100 * d * z;
    assert(w * ((m - 1) * (p * y)) == (m * (m - 1) * t) * y) by (nonlinear_arith)
        requires
            w == q * g * m,
            t == q * g * p,
    ;
    assert(100 * right == (k * k * u) * y) by (nonlinear_arith)
        requires
            right == k * k * (y * z * d),
            u == 100 * d * z,
    ;
    lemma_leave_out(m * (m - 1) * t, k * k * u, y);
    assert((k * k) * n <= (n + 2) * (m * (m - 1))) by (nonlinear_arith)
        requires
            m == 2 * n,
            k == 2 * n + 1,
            n > 4,
    ;
    assert(u > 0) by (nonlinear_arith)
        requires
            u == 100 * d * z,
            d > 0,
            z > 0,
    ;
    assert((n * t) * (m * (m - 1)) <= ((n + 2) * u) * (m * (m - 1))) by (nonlinear_arith)
        requires
            m * (m - 1) * t <= k * k * u,
            (k * k) * n <= (n + 2) * (m * (m - 1)),
            u > 0,
            n > 0,
    ;
    assert(m * (m - 1) > 0) by (nonlinear_arith)
        requires
            m > 1,
    ;
    lemma_leave_out(n * t, (n + 2) * u, m * (m - 1));
}

/// The errors of the three floats together, from below.
proof fn lemma_from_below(
    n: int,
    a: int,
    b: int,
    q: int,
    x: int,
    y: int,
    z: int,
    g: int,
    d: int,
    p: int,
)
    requires
        n > 4,
        a > 0 && b > 0 && q > 0 && x > 0 && y > 0 && z > 0 && g > 0 && d > 0 && p > 0,
        (2 * n - 1) * (d * x) <= (2 * n) * (a * g),
        (2 * n) * (b * 100) <= (2 * n + 1) * (p * y),
        (2 * n - 1) * ((a * y) * z) <= (2 * n) * (q * (b * x)),
    ensures
        (n - 2) * (100 * d * z) <= n * (q * g * p),
{
    let m = 2 * n;
    let k = m - 1;
    lemma_positive(m, g);
    lemma_positive(k, y);
    lemma_positive(k * y, z);
    assert((k * ((a * y) * z)) * (m * g) <= (m * (q * (b * x))) * (m * g)) by (nonlinear_arith)
        requires
            k * ((a * y) * z) <= m * (q * (b * x)),
            m * g > 0,
    ;
    assert((k * ((a * y) * z)) * (m * g) == (k * y * z) * (m * (a * g))) by (nonlinear_arith);
    assert((k * y * z) * (k * (d * x)) <= (k * y * z) * (m * (a * g))) by (nonlinear_arith)
        requires
            k * (d * x) <= m * (a * g),
            k * y * z > 0,
    ;
    let left = q * b * (m * m * g);
    let right = k * k * (y * z * d);
    assert((m * (q * (b * x))) * (m * g) == left * x) by (nonlinear_arith)
        requires
            left == q * b * (m * m * g),
    ;
    assert((k * y * z) * (k * (d * x)) == right * x) by (nonlinear_arith)
        requires
            right == k * k * (y * z * d),
    ;
    lemma_leave_out(right, left, x);
    let w = q * g * m;
    lemma_positive(q, g);
    lemma_positive(q * g, m);
    assert(w * (m * (b * 100)) <= w * ((m + 1) * (p * y))) by (nonlinear_arith)
        requires
            m * (b * 100) <= (m + 1) * (p * y),
            w >= 0,
    ;
    assert(w * (m * (b * 100)) == 100 * left) by (nonlinear_arith)
        requires
            w == q * g * m,
            left == q * b * (m * m * g),
    ;
    let t = q * g * p;
    let u = 100 * d * z;
    assert(w * ((m + 1) * (p * y)) == (m * (m + 1) * t) * y) by (nonlinear_arith)
        requires
            w == q * g * m,
            t == q * g * p,
    ;
    assert(100 * right == (k * k * u) * y) by (nonlinear_arith)
        requires
            right == k * k * (y * z * d),
            u == 100 * d * z,
    ;
    lemma_leave_out(k * k * u, m * (m + 1) * t, y);
    assert((n - 2) * (m * (m + 1)) <= (k * k) * n) by (nonlinear_arith)
        requires
            m == 2 * n,
            k == 2 * n - 1,
            n > 4,
    ;
    assert(u > 0) by (nonlinear_arith)
        requires
            u == 100 * d * z,
            d > 0,
            z > 0,
    ;
    assert(((n - 2) * u) * (m * (m + 1)) <= (n * t) * (m * (m + 1))) by (nonlinear_arith)
        requires
            k * k * u <= m * (m + 1) * t,
            (n - 2) * (m * (m + 1)) <= (k * k) * n,
            u > 0,
            n > 0,
    ;
    assert(m * (m + 1) > 0) by (nonlinear_arith)
        requires
            m > 1,
    ;
    lemma_leave_out((n - 2) * u, n * t, m * (m + 1));
}

/// The waits follow the speed: at `speed_percent` of real time, where zero
/// counts as one, a wait is less than a nanosecond off its hundredfold divided
/// by the speed.
pub proof fn law_waits_follow_the_speed(duration_ns: int, speed_percent: int)
    requires
        75_000_000 <= duration_ns <= 2_000_000_000,
        0 <= speed_percent <= u32::MAX,
    ensures
        ({
            let speed = if speed_percent == 0 {
                1
            } else {
                speed_percent
            };
            let wait = scaled(duration_ns, speed_percent);
            100 * duration_ns - speed < wait * speed < 100 * duration_ns + speed
        }),
{
    let p: int = if speed_percent == 0 {
        1
    } else {
        speed_percent
    };
    let d = duration_ns;
    let g: int = 1_000_000_000;
    lemma_powers();
    let n = two(52) as int;
    assert(two(53) == 2 * two(52));
    lemma_float_is_near(d as nat, g as nat);
    lemma_float_is_near(p as nat, 100);
    let ds = float_scale(d as nat, g as nat);
    let fs = float_scale(p as nat, 100);
    lemma_scales(d as nat, p as nat, ds, fs);
    let a = float_digits(d as nat, g as nat) as int;
    let b = float_digits(p as nat, 100) as int;
    let x = two(ds) as int;
    let y = two(fs) as int;
    let num = (a * y) as nat;
    let den = (b * x) as nat;
    lemma_two_grows(30, ds);
    lemma_two_grows(fs, 60);
    assert(0 < a * y && a * y <= 2 * n * y && y < b * x) by (nonlinear_arith)
        requires
            n == 0x10_0000_0000_0000,
            n <= a <= 2 * n,
            n <= b,
            x >= 0x4000_0000,
            0 < y <= 0x1000_0000_0000_0000,
    ;
    assert(2 * n * y < 2 * n * (b * x)) by (nonlinear_arith)
        requires
            y < b * x,
            n > 0,
    ;
    assert(num < two(53) * den);
    lemma_float_is_near(num, den);
    let q = float_digits(num, den) as int;
    let z = two(float_scale(num, den)) as int;
    lemma_from_above(n, a, b, q, x, y, z, g, d, p);
    lemma_from_below(n, a, b, q, x, y, z, g, d, p);
    let r = scaled(duration_ns, speed_percent);
    assert(r == nearest_even((q * g) as nat, z as nat));
    lemma_half_off((q * g) as nat, z as nat);
    let u = 100 * d;
    let t = q * g * p;
    let v = r * p;
    let f = q * g;
    assert(2 * (v * z) <= 2 * t + z * p && 2 * t <= 2 * (v * z) + z * p) by (nonlinear_arith)
        requires
            2 * (r * z) <= 2 * f + z,
            2 * f <= 2 * (r * z) + z,
            v == r * p,
            t == f * p,
            p > 0,
    ;
    assert(100 * d * z == u * z);
    assert((2 * n * v) * z <= (2 * (n + 2) * u + n * p) * z) by (nonlinear_arith)
        requires
            2 * (v * z) <= 2 * t + z * p,
            n * t <= (n + 2) * (u * z),
            n > 0,
    ;
    assert((2 * (n - 2) * u) * z <= (2 * n * v + n * p) * z) by (nonlinear_arith)
        requires
            2 * t <= 2 * (v * z) + z * p,
            (n - 2) * (u * z) <= n * t,
            n > 0,
    ;
    lemma_leave_out(2 * n * v, 2 * (n + 2) * u + n * p, z);
    lemma_leave_out(2 * (n - 2) * u, 2 * n * v + n * p, z);
    assert(4 * u < n * p) by (nonlinear_arith)
        requires
            u <= 200_000_000_000,
            p >= 1,
            n == 0x10_0000_0000_0000,
    ;
    assert(v < u + p) by (nonlinear_arith)
        requires
            2 * n * v <= 2 * (n + 2) * u + n * p,
            4 * u < n * p,
            n > 0,
    ;
    assert(u - p < v) by (nonlinear_arith)
        requires
            2 * (n - 2) * u <= 2 * n * v + n * p,
            4 * u < n * p,
            n > 0,
    ;
}

}
