//! Decimal digits: the number that a run of digits denotes, and the digits
//! that write a number.

use crate::text::append_text;
use vstd::prelude::*;

verus! {

/// The ten ASCII digits.
pub open spec fn is_digit(c: char) -> bool {
    '0' <= c <= '9'
}

/// The number that one digit denotes.
pub open spec fn digit_value(c: char) -> nat {
    (c as u32 - '0' as u32) as nat
}

/// The digit that denotes `d`.
pub open spec fn digit_char(d: nat) -> char {
    (d + '0' as u32) as char
}

/// Every character is a digit.
pub open spec fn all_digits(s: Seq<char>) -> bool {
    forall|i: int| 0 <= i < s.len() ==> is_digit(#[trigger] s[i])
}

/// The number that the digits denote, the most significant digit first.
pub open spec fn digits_value(s: Seq<char>) -> nat
    decreases s.len(),
{
    if s.len() == 0 {
        0
    } else {
        10 * digits_value(s.drop_last()) + digit_value(s.last())
    }
}

/// Ten to the power of `k`.
pub open spec fn ten(k: nat) -> nat
    decreases k,
{
    if k == 0 {
        1
    } else {
        10 * ten((k - 1) as nat)
    }
}

/// Two to the power of `k`.
pub open spec fn two(k: nat) -> nat
    decreases k,
{
    if k == 0 {
        1
    } else {
        2 * two((k - 1) as nat)
    }
}

/// Powers of ten are positive.
pub proof fn lemma_ten_positive(k: nat)
    ensures
        ten(k) >= 1,
    decreases k,
{
    if k > 0 {
        lemma_ten_positive((k - 1) as nat);
    }
}

/// Powers of two are positive.
pub proof fn lemma_two_positive(k: nat)
    ensures
        two(k) >= 1,
    decreases k,
{
    if k > 0 {
        lemma_two_positive((k - 1) as nat);
    }
}

/// Exponents of ten add up.
pub proof fn lemma_ten_adds(a: nat, b: nat)
    ensures
        ten(a + b) == ten(a) * ten(b),
    decreases b,
{
    if b == 0 {
        assert(ten(a) * 1 == ten(a)) by (nonlinear_arith);
    } else {
        lemma_ten_adds(a, (b - 1) as nat);
        let x = ten(a);
        let y = ten((b - 1) as nat);
        assert(10 * (x * y) == x * (10 * y)) by (nonlinear_arith);
        assert((a + b - 1) as nat == a + (b - 1) as nat);
    }
}

/// Exponents of two add up.
pub proof fn lemma_two_adds(a: nat, b: nat)
    ensures
        two(a + b) == two(a) * two(b),
    decreases b,
{
    if b == 0 {
        assert(two(a) * 1 == two(a)) by (nonlinear_arith);
    } else {
        lemma_two_adds(a, (b - 1) as nat);
        let x = two(a);
        let y = two((b - 1) as nat);
        assert(2 * (x * y) == x * (2 * y)) by (nonlinear_arith);
        assert((a + b - 1) as nat == a + (b - 1) as nat);
    }
}

/// A larger exponent gives a larger power of ten.
pub proof fn lemma_ten_grows(a: nat, b: nat)
    requires
        a <= b,
    ensures
        ten(a) <= ten(b),
    decreases b - a,
{
    if a < b {
        lemma_ten_grows(a, (b - 1) as nat);
    }
}

/// A larger exponent gives a larger power of two.
pub proof fn lemma_two_grows(a: nat, b: nat)
    requires
        a <= b,
    ensures
        two(a) <= two(b),
    decreases b - a,
{
    if a < b {
        lemma_two_grows(a, (b - 1) as nat);
    }
}

/// A thousand is less than 1024, power for power.
pub proof fn lemma_ten_below_two(k: nat)
    ensures
        ten(3 * k) <= two(10 * k),
    decreases k,
{
    if k > 0 {
        lemma_ten_below_two((k - 1) as nat);
        let j = (k - 1) as nat;
        assert(ten(3 * k) == 1000 * ten(3 * j)) by {
            reveal_with_fuel(ten, 4);
        }
        assert(two(10 * k) == 1024 * two(10 * j)) by {
            reveal_with_fuel(two, 11);
        }
    }
}

/// Ten is more than eight, power for power.
pub proof fn lemma_two_below_ten(k: nat)
    ensures
        two(3 * k) <= ten(k),
    decreases k,
{
    if k > 0 {
        lemma_two_below_ten((k - 1) as nat);
        let j = (k - 1) as nat;
        assert(two(3 * k) == 8 * two(3 * j)) by {
            reveal_with_fuel(two, 4);
        }
    }
}

/// The value of two runs of digits one after the other.
pub proof fn lemma_digits_concat(a: Seq<char>, b: Seq<char>)
    ensures
        digits_value(a + b) == digits_value(a) * ten(b.len()) + digits_value(b),
    decreases b.len(),
{
    if b.len() == 0 {
        assert(a + b =~= a);
        assert(digits_value(a) * 1 == digits_value(a)) by (nonlinear_arith);
    } else {
        let c = b.drop_last();
        lemma_digits_concat(a, c);
        assert((a + b).drop_last() =~= a + c);
        let x = digits_value(a);
        let y = ten(c.len());
        assert(10 * (x * y) == x * (10 * y)) by (nonlinear_arith);
    }
}

/// `n` digits denote less than ten to the power of `n`.
pub proof fn lemma_digits_bound(s: Seq<char>)
    requires
        all_digits(s),
    ensures
        digits_value(s) < ten(s.len()),
    decreases s.len(),
{
    if s.len() > 0 {
        assert forall|i: int| 0 <= i < s.drop_last().len() implies is_digit(
            #[trigger] s.drop_last()[i],
        ) by {
            assert(s.drop_last()[i] == s[i]);
        }
        lemma_digits_bound(s.drop_last());
        assert(is_digit(s[s.len() - 1]));
    }
}

/// Digits that start with another digit than zero denote at least a power
/// of ten.
pub proof fn lemma_digits_at_least(s: Seq<char>)
    requires
        s.len() > 0,
        all_digits(s),
        s[0] != '0',
    ensures
        ten((s.len() - 1) as nat) <= digits_value(s),
    decreases s.len(),
{
    if s.len() > 1 {
        let t = s.drop_last();
        assert forall|i: int| 0 <= i < t.len() implies is_digit(#[trigger] t[i]) by {
            assert(t[i] == s[i]);
        }
        lemma_digits_at_least(t);
    } else {
        assert(is_digit(s[0]));
        assert(s.drop_last().len() == 0);
    }
}

/// The digits that write `v`, without leading zeros; `0` for zero.
pub open spec fn nat_text(v: nat) -> Seq<char>
    decreases v,
{
    if v < 10 {
        seq![digit_char(v)]
    } else {
        nat_text(v / 10).push(digit_char(v % 10))
    }
}

/// The decimal form of an integer, with `-` before a negative one.
pub open spec fn int_text(v: int) -> Seq<char> {
    if v < 0 {
        seq!['-'] + nat_text((-v) as nat)
    } else {
        nat_text(v as nat)
    }
}

/// What writes a number is made of digits and denotes it.
pub proof fn lemma_nat_text(v: nat)
    ensures
        nat_text(v).len() > 0,
        all_digits(nat_text(v)),
        digits_value(nat_text(v)) == v,
    decreases v,
{
    if v < 10 {
        reveal_with_fuel(digits_value, 2);
    } else {
        lemma_nat_text(v / 10);
        let t = nat_text(v / 10);
        let d = digit_char(v % 10);
        assert(t.push(d).drop_last() =~= t);
        assert forall|i: int| 0 <= i < t.push(d).len() implies is_digit(#[trigger] t.push(d)[i]) by {
            if i < t.len() {
                assert(t.push(d)[i] == t[i]);
            }
        }
    }
}

/// The digits that write `v`.
pub fn write_nat(v: u64) -> (r: String)
    ensures
        r@ == nat_text(v as nat),
    decreases v,
{
    let digit: char = ((v % 10) as u8 + 48) as char;
    if v < 10 {
        let mut out = String::new();
        out.push(digit);
        assert(out@ =~= nat_text(v as nat));
        out
    } else {
        let mut out = write_nat(v / 10);
        out.push(digit);
        out
    }
}

/// The decimal form of `v`.
pub fn write_int(v: i64) -> (r: String)
    ensures
        r@ == int_text(v as int),
{
    if v < 0 {
        let magnitude: u64 = if v == i64::MIN {
            0x8000_0000_0000_0000
        } else {
            (-v) as u64
        };
        let digits = write_nat(magnitude);
        let mut out = String::new();
        out.push('-');
        append_text(&mut out, digits.as_str());
        assert(out@ =~= int_text(v as int));
        out
    } else {
        write_nat(v as u64)
    }
}

}
