//! Whether a decimal number is too large or too small for a double-precision
//! float.
//!
//! A decimal is rounded to the nearest float, ties to even, so it becomes an
//! infinity from the midpoint between the largest finite float and the next
//! power of two on, and zero up to half of the smallest float. The decisions
//! are made on decimal digits, in exact arithmetic.

use crate::digits::{all_digits, digit_value, digits_value, is_digit, ten, two};
use crate::digits::{
    lemma_digits_at_least, lemma_digits_bound, lemma_digits_concat, lemma_ten_adds,
    lemma_ten_below_two, lemma_ten_grows, lemma_ten_positive, lemma_two_adds, lemma_two_below_ten,
    lemma_two_grows, lemma_two_positive,
};
use vstd::prelude::*;

verus! {

/// The least number that rounds to infinity: half a unit in the last place
/// above the largest finite float, which is 2^1024 - 2^970.
pub open spec fn infinity_bound() -> nat {
    ((two(54) - 1) * two(970)) as nat
}

/// `m * 10^scale` is at least `bound`.
pub open spec fn reaches(m: nat, scale: int, bound: nat) -> bool {
    if scale >= 0 {
        m * ten(scale as nat) >= bound
    } else {
        m >= bound * ten((-scale) as nat)
    }
}

/// The first `len` digits of `d`, filled up with zeros where there are fewer.
pub open spec fn whole_digits(d: Seq<char>, len: nat) -> Seq<char> {
    if len <= d.len() {
        d.take(len as int)
    } else {
        d + Seq::new((len - d.len()) as nat, |i: int| '0')
    }
}

/// The number that decimal places denote, the least significant one first.
pub open spec fn places_value(s: Seq<u8>) -> nat
    decreases s.len(),
{
    if s.len() == 0 {
        0
    } else {
        places_value(s.drop_last()) + s.last() as nat * ten((s.len() - 1) as nat)
    }
}

/// Every place holds one decimal digit.
pub open spec fn are_places(s: Seq<u8>) -> bool {
    forall|i: int| 0 <= i < s.len() ==> #[trigger] s[i] <= 9
}

/// How many decimal places the comparison uses.
const PLACES: usize = 400;

pub proof fn lemma_bound_range()
    ensures
        ten(300) <= infinity_bound(),
        infinity_bound() < ten(400),
        infinity_bound() > 0,
{
    lemma_ten_below_two(100);
    lemma_two_below_ten(400);
    lemma_two_grows(1000, 1023);
    lemma_two_grows(1024, 1199);
    lemma_two_adds(53, 970);
    lemma_two_adds(54, 970);
    lemma_two_positive(970);
    lemma_two_positive(53);
    let x = two(53);
    let y = two(970);
    assert(two(54) == 2 * x);
    assert((2 * x - 1) * y >= x * y) by (nonlinear_arith)
        requires
            x >= 1,
            y >= 1,
    ;
    assert((2 * x - 1) * y <= (2 * x) * y) by (nonlinear_arith)
        requires
            y >= 1,
    ;
    assert(two(1200) == 2 * two(1199));
    lemma_two_positive(1199);
    lemma_two_positive(1023);
}

proof fn lemma_zeros(n: nat)
    ensures
        digits_value(Seq::new(n, |i: int| '0')) == 0,
    decreases n,
{
    if n > 0 {
        lemma_zeros((n - 1) as nat);
        assert(Seq::new(n, |i: int| '0').drop_last() =~= Seq::new((n - 1) as nat, |i: int| '0'));
    }
}

/// How far the leading digit stands from the decimal point decides, except
/// close to the bound, where the digits before the point do.
pub proof fn lemma_reaches(d: Seq<char>, scale: int)
    requires
        d.len() > 0,
        all_digits(d),
        d[0] != '0',
    ensures
        d.len() + scale <= 300 ==> !reaches(digits_value(d), scale, infinity_bound()),
        d.len() + scale > 400 ==> reaches(digits_value(d), scale, infinity_bound()),
        300 < d.len() + scale <= 400 ==> reaches(digits_value(d), scale, infinity_bound()) == (
        digits_value(whole_digits(d, (d.len() + scale) as nat)) >= infinity_bound()),
{
    let m = digits_value(d);
    let n = d.len();
    let len = n + scale;
    let b = infinity_bound();
    lemma_digits_bound(d);
    lemma_digits_at_least(d);
    lemma_bound_range();
    if scale >= 0 {
        let s = scale as nat;
        let t = ten(s);
        lemma_ten_positive(s);
        lemma_ten_adds(n, s);
        lemma_ten_adds((n - 1) as nat, s);
        if len <= 300 {
            lemma_ten_grows(len as nat, 300);
            assert(m * t < ten(n) * t) by (nonlinear_arith)
                requires
                    m < ten(n),
                    t >= 1,
            ;
        }
        if len > 400 {
            lemma_ten_grows(400, (len - 1) as nat);
            assert(m * t >= ten((n - 1) as nat) * t) by (nonlinear_arith)
                requires
                    m >= ten((n - 1) as nat),
                    t >= 1,
            ;
            assert((n - 1) as nat + s == (len - 1) as nat);
        }
        if 300 < len <= 400 {
            let zeros = Seq::new(s, |i: int| '0');
            lemma_zeros(s);
            lemma_digits_concat(d, zeros);
            if s == 0 {
                assert(whole_digits(d, len as nat) =~= d + zeros);
            } else {
                assert(whole_digits(d, len as nat) =~= d + zeros);
            }
        }
    } else {
        let s = (-scale) as nat;
        let t = ten(s);
        lemma_ten_positive(s);
        if len <= 300 {
            if len >= 0 {
                lemma_ten_adds(len as nat, s);
                lemma_ten_grows(len as nat, 300);
                assert(len as nat + s == n);
                assert(ten(len as nat) * t <= b * t) by (nonlinear_arith)
                    requires
                        ten(len as nat) <= b,
                        t >= 1,
                ;
            } else {
                lemma_ten_grows(n, s);
                assert(t <= b * t) by (nonlinear_arith)
                    requires
                        b >= 1,
                        t >= 1,
                ;
            }
        }
        if len > 400 {
            lemma_ten_adds((len - 1) as nat, s);
            assert((len - 1) as nat + s == (n - 1) as nat);
            lemma_ten_grows(400, (len - 1) as nat);
            assert(ten((len - 1) as nat) * t >= b * t) by (nonlinear_arith)
                requires
                    ten((len - 1) as nat) >= b,
                    t >= 1,
            ;
        }
        if 300 < len <= 400 {
            let head = d.take(len);
            let tail = d.skip(len);
            assert(head + tail =~= d);
            lemma_digits_concat(head, tail);
            assert(all_digits(tail)) by {
                assert forall|i: int| 0 <= i < tail.len() implies is_digit(#[trigger] tail[i]) by {
                    assert(tail[i] == d[len + i]);
                }
            }
            lemma_digits_bound(tail);
            let h = digits_value(head);
            let l = digits_value(tail);
            assert(m == h * t + l);
            if h >= b {
                assert(h * t >= b * t) by (nonlinear_arith)
                    requires
                        h >= b,
                        t >= 1,
                ;
            } else {
                assert(h * t + t <= b * t) by (nonlinear_arith)
                    requires
                        h + 1 <= b,
                        t >= 1,
                ;
            }
        }
    }
}

/// Places denote less than the next power of ten.
pub proof fn lemma_places_bound(s: Seq<u8>)
    requires
        are_places(s),
    ensures
        places_value(s) < ten(s.len()),
    decreases s.len(),
{
    if s.len() > 0 {
        let t = s.drop_last();
        assert forall|i: int| 0 <= i < t.len() implies #[trigger] t[i] <= 9 by {
            assert(t[i] == s[i]);
        }
        lemma_places_bound(t);
        let d = s[s.len() - 1] as nat;
        let p = ten((s.len() - 1) as nat);
        assert(d * p <= 9 * p) by (nonlinear_arith)
            requires
                d <= 9,
        ;
    }
}

/// The highest place where two numbers differ decides which one is larger.
proof fn lemma_places_order(a: Seq<u8>, b: Seq<u8>, k: int)
    requires
        a.len() == b.len(),
        are_places(a),
        are_places(b),
        0 <= k < a.len(),
        a[k] < b[k],
        forall|i: int| k < i < a.len() ==> a[i] == b[i],
    ensures
        places_value(a) < places_value(b),
    decreases a.len(),
{
    let x = a.drop_last();
    let y = b.drop_last();
    assert(are_places(x)) by {
        assert forall|i: int| 0 <= i < x.len() implies #[trigger] x[i] <= 9 by {
            assert(x[i] == a[i]);
        }
    }
    assert(are_places(y)) by {
        assert forall|i: int| 0 <= i < y.len() implies #[trigger] y[i] <= 9 by {
            assert(y[i] == b[i]);
        }
    }
    if k == a.len() - 1 {
        lemma_places_bound(x);
        let p = ten((a.len() - 1) as nat);
        let da = a[k] as nat;
        let db = b[k] as nat;
        assert(da * p + p <= db * p) by (nonlinear_arith)
            requires
                da + 1 <= db,
        ;
    } else {
        lemma_places_order(x, y, k);
        assert(a[a.len() - 1] == b[a.len() - 1]);
    }
}

/// Doubles the number that the places denote.
fn double_places(v: &mut Vec<u8>)
    requires
        old(v)@.len() == PLACES,
        are_places(old(v)@),
        2 * places_value(old(v)@) < ten(400),
    ensures
        final(v)@.len() == PLACES,
        are_places(final(v)@),
        places_value(final(v)@) == 2 * places_value(old(v)@),
{
    let ghost before = v@;
    let mut carry: u8 = 0;
    let mut i: usize = 0;
    assert(before.take(0) =~= v@.take(0));
    while i < PLACES
        invariant
            i <= PLACES,
            carry <= 1,
            v@.len() == PLACES,
            before.len() == PLACES,
            are_places(before),
            are_places(v@),
            forall|j: int| i <= j < PLACES ==> v@[j] == before[j],
            places_value(v@.take(i as int)) + carry as nat * ten(i as nat) == 2 * places_value(
                before.take(i as int),
            ),
        decreases PLACES - i,
    {
        let ghost old_v = v@;
        let d: u8 = v[i];
        assert(before[i as int] <= 9);
        let sum: u8 = 2 * d + carry;
        let low: u8 = sum % 10;
        let high: u8 = sum / 10;
        v[i] = low;
        proof {
            let p = ten(i as nat);
            assert(v@.take(i + 1).drop_last() =~= old_v.take(i as int));
            assert(before.take(i + 1).drop_last() =~= before.take(i as int));
            assert(v@.take(i + 1).last() == low);
            assert(before.take(i + 1).last() == d);
            let l = low as nat;
            let h = high as nat;
            let c = carry as nat;
            let dd = d as nat;
            assert(l * p + h * (10 * p) == 2 * (dd * p) + c * p) by (nonlinear_arith)
                requires
                    l + 10 * h == 2 * dd + c,
            ;
            assert(ten((i + 1) as nat) == 10 * p);
        }
        carry = high;
        i = i + 1;
    }
    proof {
        assert(v@.take(400) =~= v@);
        assert(before.take(400) =~= before);
        if carry == 1 {
            assert(1 * ten(400) == ten(400)) by (nonlinear_arith);
        } else {
            assert(0 * ten(400) == 0) by (nonlinear_arith);
        }
    }
}

/// Zeros denote zero.
pub proof fn lemma_zero_places(n: nat)
    ensures
        places_value(Seq::new(n, |i: int| 0u8)) == 0,
    decreases n,
{
    if n > 0 {
        lemma_zero_places((n - 1) as nat);
        assert(Seq::new(n, |i: int| 0u8).drop_last() =~= Seq::new((n - 1) as nat, |i: int| 0u8));
        assert(0 * ten((n - 1) as nat) == 0) by (nonlinear_arith);
    }
}

/// Zero, in decimal places.
fn zero_places() -> (v: Vec<u8>)
    ensures
        v@ == Seq::new(400, |i: int| 0u8),
{
    let mut v: Vec<u8> = Vec::new();
    while v.len() < PLACES
        invariant
            v@.len() <= PLACES,
            v@ == Seq::new(v@.len(), |i: int| 0u8),
        decreases PLACES - v@.len(),
    {
        v.push(0);
        assert(v@ =~= Seq::new(v@.len(), |i: int| 0u8));
    }
    v
}

/// One place set in a number that is zero from that place on.
proof fn lemma_set_place(s: Seq<u8>, k: int, d: u8)
    requires
        0 <= k < s.len(),
        forall|j: int| k <= j < s.len() ==> s[j] == 0,
    ensures
        places_value(s.update(k, d)) == places_value(s) + d as nat * ten(k as nat),
    decreases s.len(),
{
    let t = s.drop_last();
    if k == s.len() - 1 {
        assert(s.update(k, d).drop_last() =~= t);
        assert(0 * ten(k as nat) == 0) by (nonlinear_arith);
    } else {
        assert(s.update(k, d).drop_last() =~= t.update(k, d));
        lemma_set_place(t, k, d);
        assert(s[s.len() - 1] == 0);
        assert(0 * ten((s.len() - 1) as nat) == 0) by (nonlinear_arith);
    }
}

/// The places of the digits `d`, which are at most as many.
fn places_of(d: &[char]) -> (v: Vec<u8>)
    requires
        d@.len() <= 400,
        all_digits(d@),
    ensures
        v@.len() == 400,
        are_places(v@),
        places_value(v@) == digits_value(d@),
{
    let mut v = zero_places();
    let n: usize = d.len();
    let mut i: usize = 0;
    proof {
        lemma_zero_places(400);
        assert(d@.skip(n as int) =~= Seq::<char>::empty());
    }
    while i < n
        invariant
            n == d@.len(),
            n <= 400,
            i <= n,
            v@.len() == 400,
            all_digits(d@),
            are_places(v@),
            forall|j: int| i <= j < 400 ==> v@[j] == 0,
            places_value(v@) == digits_value(d@.skip(n - i)),
        decreases n - i,
    {
        let c: char = d[n - 1 - i];
        assert(is_digit(d@[n - 1 - i]));
        let digit: u8 = (c as u8) - 48;
        proof {
            lemma_set_place(v@, i as int, digit);
            let shorter = d@.skip(n - i);
            let longer = d@.skip(n - 1 - i);
            assert(longer =~= seq![c] + shorter);
            lemma_digits_concat(seq![c], shorter);
            assert(digits_value(seq![c]) == digit_value(c)) by {
                reveal_with_fuel(digits_value, 2);
            }
        }
        v[i] = digit;
        i = i + 1;
    }
    assert(d@.skip(0) =~= d@);
    v
}

/// The bound from which on decimals round to infinity, in decimal places.
fn bound_places() -> (v: Vec<u8>)
    ensures
        v@.len() == 400,
        are_places(v@),
        places_value(v@) == infinity_bound(),
{
    let seed: [char; 17] = [
        '1', '8', '0', '1', '4', '3', '9', '8', '5', '0', '9', '4', '8', '1', '9', '8', '3',
    ];
    assert(all_digits(seed@));
    let mut v = places_of(&seed);
    assert(digits_value(seed@) == 18014398509481983) by {
        reveal_with_fuel(digits_value, 18);
    }
    assert(two(54) == 18014398509481984) by {
        assert(two(27) == 134217728) by {
            reveal_with_fuel(two, 28);
        }
        lemma_two_adds(27, 27);
    }
    let mut k: usize = 0;
    assert((two(54) - 1) * 1 == two(54) - 1);
    while k < 970
        invariant
            k <= 970,
            v@.len() == 400,
            are_places(v@),
            places_value(v@) == (two(54) - 1) * two(k as nat),
        decreases 970 - k,
    {
        proof {
            lemma_bound_range();
            lemma_two_grows((k + 1) as nat, 970);
            lemma_two_positive(54);
            let a = two(54) - 1;
            let x = two(k as nat) as int;
            let y = two(970) as int;
            assert(2 * (a * x) == a * (2 * x)) by (nonlinear_arith);
            assert(a * (2 * x) <= a * y) by (nonlinear_arith)
                requires
                    a >= 0,
                    2 * x <= y,
            ;
        }
        double_places(&mut v);
        k = k + 1;
    }
    v
}

/// Whether the first number is at least the second.
fn places_at_least(a: &Vec<u8>, b: &Vec<u8>) -> (r: bool)
    requires
        a@.len() == 400,
        b@.len() == 400,
        are_places(a@),
        are_places(b@),
    ensures
        r == (places_value(a@) >= places_value(b@)),
{
    let mut i: usize = 400;
    while i > 0
        invariant
            i <= 400,
            a@.len() == 400,
            b@.len() == 400,
            are_places(a@),
            are_places(b@),
            forall|j: int| i <= j < 400 ==> a@[j] == b@[j],
        decreases i,
    {
        i = i - 1;
        if a[i] < b[i] {
            proof {
                lemma_places_order(a@, b@, i as int);
            }
            return false;
        }
        if a[i] > b[i] {
            proof {
                lemma_places_order(b@, a@, i as int);
            }
            return true;
        }
    }
    assert(a@ =~= b@);
    true
}

/// Whether `d * 10^scale` rounds to infinity, where `len` is how many digits
/// stand before the decimal point.
pub(crate) fn reaches_infinity(d: &Vec<char>, len: i128, Ghost(scale): Ghost<int>) -> (r: bool)
    requires
        d@.len() > 0,
        all_digits(d@),
        d@[0] != '0',
        len <= 300 ==> d@.len() + scale <= 300,
        len > 400 ==> d@.len() + scale > 400,
        300 < len <= 400 ==> d@.len() + scale == len,
    ensures
        r == reaches(digits_value(d@), scale, infinity_bound()),
{
    proof {
        lemma_reaches(d@, scale);
    }
    if len <= 300 {
        return false;
    }
    if len > 400 {
        return true;
    }
    let wanted: usize = len as usize;
    let mut whole: Vec<char> = Vec::new();
    while whole.len() < wanted
        invariant
            300 < wanted <= 400,
            all_digits(d@),
            whole@.len() <= wanted,
            whole@ == whole_digits(d@, whole@.len()),
            all_digits(whole@),
        decreases wanted - whole@.len(),
    {
        let ghost before = whole@;
        let i: usize = whole.len();
        if i < d.len() {
            assert(is_digit(d@[i as int]));
            whole.push(d[i]);
        } else {
            whole.push('0');
        }
        assert(whole@ =~= whole_digits(d@, whole@.len()));
        assert forall|j: int| 0 <= j < whole@.len() implies is_digit(#[trigger] whole@[j]) by {
            if j < before.len() {
                assert(whole@[j] == before[j]);
            }
        }
    }
    let number = places_of(whole.as_slice());
    let bound = bound_places();
    places_at_least(&number, &bound)
}

// ---------------------------------------------------------------------------
// Small numbers
// ---------------------------------------------------------------------------

/// `m * 10^scale` does not round to zero: it lies above half of the smallest
/// float, which is 2^-1074.
pub open spec fn stays(m: nat, scale: int) -> bool {
    if scale >= 0 {
        m > 0
    } else {
        m * two(1075) > ten((-scale) as nat)
    }
}

/// More zeros and a smaller scale are the same number.
pub proof fn lemma_stays_shifted(v: nat, j: nat, scale: int)
    ensures
        stays(v * ten(j), scale - j) == stays(v, scale),
{
    lemma_ten_positive(j);
    let p = ten(j);
    let w = two(1075);
    if scale - j >= 0 {
        assert(v * p > 0 <==> v > 0) by (nonlinear_arith)
            requires
                p >= 1,
        ;
    } else if scale >= 0 {
        let k = (j - scale) as nat;
        lemma_ten_adds(scale as nat, k);
        lemma_ten_positive(k);
        lemma_ten_positive(scale as nat);
        lemma_two_positive(1074);
        let a = ten(scale as nat);
        let b = ten(k);
        assert(w == 2 * two(1074));
        assert((v * p) * w > b <==> v > 0) by (nonlinear_arith)
            requires
                p == a * b,
                a >= 1,
                b >= 1,
                w >= 2,
        ;
    } else {
        let n = (-scale) as nat;
        lemma_ten_adds(n, j);
        let a = ten(n);
        assert((-(scale - j)) as nat == n + j);
        assert((v * p) * w > a * p <==> v * w > a) by (nonlinear_arith)
            requires
                p >= 1,
        ;
    }
}

/// How far the leading digit stands behind the decimal point decides, except
/// close to the bound.
pub proof fn lemma_stays(d: Seq<char>, scale: int)
    requires
        d.len() > 0,
        all_digits(d),
        d[0] != '0',
    ensures
        d.len() + scale < -400 ==> !stays(digits_value(d), scale),
        d.len() + scale > -300 ==> stays(digits_value(d), scale),
{
    let m = digits_value(d);
    let n = d.len();
    let point = n + scale;
    let w = two(1075);
    lemma_digits_bound(d);
    lemma_digits_at_least(d);
    lemma_ten_positive((n - 1) as nat);
    lemma_two_below_ten(400);
    lemma_two_grows(1075, 1200);
    lemma_ten_below_two(100);
    lemma_two_grows(1000, 1074);
    lemma_two_positive(1074);
    assert(w == 2 * two(1074));
    if point < -400 {
        let k = (-scale) as nat;
        lemma_ten_adds(n, 400);
        lemma_ten_grows(n + 400, k);
        assert(m * w <= ten(n) * ten(400)) by (nonlinear_arith)
            requires
                m <= ten(n),
                w <= ten(400),
        ;
    }
    if point > -300 && scale < 0 {
        let k = (-scale) as nat;
        lemma_ten_adds((n - 1) as nat, 300);
        lemma_ten_grows(k, ((n - 1) as nat + 300) as nat);
        assert(m * w > ten((n - 1) as nat) * ten(300)) by (nonlinear_arith)
            requires
                m >= ten((n - 1) as nat),
                ten((n - 1) as nat) >= 1,
                w > ten(300),
        ;
    }
}

/// Places that are all zero denote zero, and others do not.
pub proof fn lemma_places_positive(s: Seq<u8>, k: int)
    requires
        0 <= k < s.len(),
        s[k] > 0,
    ensures
        places_value(s) > 0,
    decreases s.len(),
{
    if k < s.len() - 1 {
        assert(s.drop_last()[k] == s[k]);
        lemma_places_positive(s.drop_last(), k);
    } else {
        let p = ten((s.len() - 1) as nat);
        let d = s[k] as nat;
        lemma_ten_positive((s.len() - 1) as nat);
        assert(d * p > 0) by (nonlinear_arith)
            requires
                d > 0,
                p > 0,
        ;
    }
}

/// The places of digits, without any further ones.
pub(crate) fn exact_places(d: &Vec<char>) -> (v: Vec<u8>)
    requires
        d@.len() > 0,
        all_digits(d@),
        d@[0] != '0',
    ensures
        v@.len() == d@.len(),
        are_places(v@),
        v@.last() > 0,
        places_value(v@) == digits_value(d@),
{
    let mut v: Vec<u8> = Vec::new();
    let n: usize = d.len();
    let mut i: usize = 0;
    assert(d@.skip(n as int) =~= Seq::<char>::empty());
    while i < n
        invariant
            n == d@.len(),
            i <= n,
            v@.len() == i,
            all_digits(d@),
            are_places(v@),
            i == n && n > 0 ==> v@[n - 1] == digit_value(d@[0]),
            places_value(v@) == digits_value(d@.skip(n - i)),
        decreases n - i,
    {
        let c: char = d[n - 1 - i];
        assert(is_digit(d@[n - 1 - i]));
        let digit: u8 = (c as u8) - 48;
        let ghost before = v@;
        v.push(digit);
        proof {
            assert(v@.drop_last() =~= before);
            let shorter = d@.skip(n - i);
            let longer = d@.skip(n - 1 - i);
            assert(longer =~= seq![c] + shorter);
            lemma_digits_concat(seq![c], shorter);
            assert(digits_value(seq![c]) == digit_value(c)) by {
                reveal_with_fuel(digits_value, 2);
            }
        }
        i = i + 1;
    }
    assert(d@.skip(0) =~= d@);
    assert(is_digit(d@[0]));
    v
}

/// Doubles the number that the places denote, with a further place where it
/// needs one.
fn double_growing(v: &mut Vec<u8>)
    requires
        old(v)@.len() > 0,
        are_places(old(v)@),
        old(v)@.last() > 0,
    ensures
        final(v)@.len() > 0,
        are_places(final(v)@),
        final(v)@.last() > 0,
        places_value(final(v)@) == 2 * places_value(old(v)@),
{
    let ghost before = v@;
    let n: usize = v.len();
    let mut carry: u8 = 0;
    let mut i: usize = 0;
    assert(before.take(0) =~= v@.take(0));
    while i < n
        invariant
            i <= n,
            n > 0,
            carry <= 1,
            v@.len() == n,
            before.len() == n,
            before[n - 1] > 0,
            are_places(before),
            are_places(v@),
            forall|j: int| i <= j < n ==> v@[j] == before[j],
            i == n ==> carry == 1 || v@[n - 1] > 0,
            places_value(v@.take(i as int)) + carry as nat * ten(i as nat) == 2 * places_value(
                before.take(i as int),
            ),
        decreases n - i,
    {
        let ghost old_v = v@;
        let d: u8 = v[i];
        assert(before[i as int] <= 9);
        let sum: u8 = 2 * d + carry;
        let low: u8 = sum % 10;
        let high: u8 = sum / 10;
        v[i] = low;
        proof {
            let p = ten(i as nat);
            assert(v@.take(i + 1).drop_last() =~= old_v.take(i as int));
            assert(before.take(i + 1).drop_last() =~= before.take(i as int));
            assert(v@.take(i + 1).last() == low);
            assert(before.take(i + 1).last() == d);
            let l = low as nat;
            let h = high as nat;
            let c = carry as nat;
            let dd = d as nat;
            assert(l * p + h * (10 * p) == 2 * (dd * p) + c * p) by (nonlinear_arith)
                requires
                    l + 10 * h == 2 * dd + c,
            ;
            assert(ten((i + 1) as nat) == 10 * p);
        }
        carry = high;
        i = i + 1;
    }
    assert(v@.take(n as int) =~= v@);
    assert(before.take(n as int) =~= before);
    if carry == 1 {
        let ghost short = v@;
        v.push(1);
        assert(v@.drop_last() =~= short);
    } else {
        assert(0 * ten(n as nat) == 0) by (nonlinear_arith);
    }
}

/// Whether the number that the places denote lies above `10^k`.
fn above_power(v: &Vec<u8>, k: i128) -> (r: bool)
    requires
        v@.len() > 0,
        are_places(v@),
        v@.last() > 0,
        k >= 0,
    ensures
        r == (places_value(v@) > ten(k as nat)),
{
    let top: usize = v.len() - 1;
    let ghost low = v@.drop_last();
    let ghost p = ten(top as nat);
    let ghost d = v@.last() as nat;
    proof {
        lemma_places_bound(v@);
        lemma_ten_positive(top as nat);
        assert(d * p >= p) by (nonlinear_arith)
            requires
                d >= 1,
        ;
    }
    if (top as i128) < k {
        proof {
            lemma_ten_grows(v@.len(), k as nat);
        }
        return false;
    }
    if top as i128 > k {
        proof {
            lemma_ten_positive(k as nat);
            lemma_ten_grows((k + 1) as nat, top as nat);
        }
        return true;
    }
    if v[top] > 1 {
        assert(d * p >= 2 * p) by (nonlinear_arith)
            requires
                d >= 2,
        ;
        return true;
    }
    assert(1 * p == p) by (nonlinear_arith);
    let mut i: usize = 0;
    while i < top
        invariant
            i <= top,
            top == v@.len() - 1,
            low == v@.drop_last(),
            p == ten(top as nat),
            k == top,
            places_value(v@) == places_value(low) + p,
            forall|j: int| 0 <= j < i ==> low[j] == 0,
        decreases top - i,
    {
        assert(low[i as int] == v@[i as int]);
        if v[i] > 0 {
            proof {
                lemma_places_positive(low, i as int);
            }
            return true;
        }
        i = i + 1;
    }
    proof {
        lemma_zero_places(top as nat);
        assert(low =~= Seq::new(top as nat, |j: int| 0u8));
    }
    false
}

/// Whether `d * 10^scale` does not round to zero, where `point` is how many
/// digits stand before the decimal point.
pub(crate) fn stays_above_zero(d: &Vec<char>, point: i128, Ghost(scale): Ghost<int>) -> (r: bool)
    requires
        d@.len() > 0,
        all_digits(d@),
        d@[0] != '0',
        -400 <= point <= 400 ==> point == d@.len() + scale,
        point < -400 <==> d@.len() + scale < -400,
        point > 400 <==> d@.len() + scale > 400,
    ensures
        r == stays(digits_value(d@), scale),
{
    proof {
        lemma_stays(d@, scale);
    }
    if point < -400 {
        return false;
    }
    if point > -300 {
        return true;
    }
    let mut v = exact_places(d);
    let ghost m = digits_value(d@);
    assert(m * 1 == m) by (nonlinear_arith);
    let mut k: usize = 0;
    while k < 1075
        invariant
            k <= 1075,
            v@.len() > 0,
            are_places(v@),
            v@.last() > 0,
            places_value(v@) == m * two(k as nat),
        decreases 1075 - k,
    {
        double_growing(&mut v);
        proof {
            let x = two(k as nat);
            assert(2 * (m * x) == m * (2 * x)) by (nonlinear_arith);
        }
        k = k + 1;
    }
    above_power(&v, d.len() as i128 - point)
}

}
