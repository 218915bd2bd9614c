//! Whole numbers of any size.
//!
//! The exact length of a note value with many dots, or of a long chain of
//! ties, takes more digits than a machine word has. A `Natural` holds its
//! number as digits to the base 2^32, the lowest first, and grows as
//! needed: no sum or product is ever too large for it.

use vstd::prelude::*;
use vstd::arithmetic::div_mod::{lemma_fundamental_div_mod, lemma_fundamental_div_mod_converse};

verus! {

/// The base of the digits: 2^32.
pub open spec fn base() -> nat {
    0x1_0000_0000
}

/// The base to the power `n`.
pub open spec fn base_to(n: nat) -> nat
    decreases n,
{
    if n == 0 {
        1
    } else {
        base() * base_to((n - 1) as nat)
    }
}

/// The number that digits write, the lowest digit first.
pub open spec fn digits_value(digits: Seq<u32>) -> nat
    decreases digits.len(),
{
    if digits.len() == 0 {
        0
    } else {
        digits[0] as nat + base() * digits_value(digits.drop_first())
    }
}

/// The digit at place `i`; zero above the highest digit.
pub open spec fn digit_at(digits: Seq<u32>, i: nat) -> nat {
    if i < digits.len() {
        digits[i as int] as nat
    } else {
        0
    }
}

/// The number that the lowest `n` digits write.
pub open spec fn low_value(digits: Seq<u32>, n: nat) -> nat {
    if n < digits.len() {
        digits_value(digits.subrange(0, n as int))
    } else {
        digits_value(digits)
    }
}

/// The powers of the base are positive and grow.
pub proof fn lemma_base_to_grows(m: nat, n: nat)
    requires
        m <= n,
    ensures
        1 <= base_to(m) <= base_to(n),
    decreases n,
{
    if n > 0 {
        if m < n {
            lemma_base_to_grows(m, (n - 1) as nat);
        } else {
            lemma_base_to_grows((m - 1) as nat, (n - 1) as nat);
        }
        assert(base_to((n - 1) as nat) <= base() * base_to((n - 1) as nat)) by (nonlinear_arith)
            requires
                base() >= 1,
        ;
        if m == n {
        }
    }
}

/// One more digit at the top adds the digit times the power of its place.
pub proof fn lemma_value_push(digits: Seq<u32>, digit: u32)
    ensures
        digits_value(digits.push(digit)) == digits_value(digits) + digit * base_to(digits.len()),
    decreases digits.len(),
{
    let longer = digits.push(digit);
    if digits.len() == 0 {
        assert(longer.drop_first() =~= Seq::<u32>::empty());
        assert(digits_value(longer) == digit + base() * digits_value(longer.drop_first()));
        assert(digit * base_to(0) == digit) by (nonlinear_arith)
            requires
                base_to(0) == 1,
        ;
    } else {
        let rest = digits.drop_first();
        assert(longer.drop_first() =~= rest.push(digit));
        lemma_value_push(rest, digit);
        let p = base_to(rest.len());
        let v = digits_value(rest);
        assert(base_to(digits.len()) == base() * p);
        assert(digits_value(longer) == digits[0] + base() * digits_value(rest.push(digit)));
        assert(base() * (v + digit * p) == base() * v + digit * (base() * p)) by (nonlinear_arith);
    }
}

/// The lowest `n + 1` digits write what the lowest `n` write, and the next
/// digit times the power of its place.
pub proof fn lemma_low_value_step(digits: Seq<u32>, n: nat)
    ensures
        low_value(digits, n + 1) == low_value(digits, n) + digit_at(digits, n) * base_to(n),
        low_value(digits, 0) == 0,
{
    if n < digits.len() {
        let lower = digits.subrange(0, n as int);
        assert(digits.subrange(0, n as int + 1) =~= lower.push(digits[n as int]));
        if n + 1 == digits.len() {
            assert(digits.subrange(0, n as int + 1) =~= digits);
        }
        lemma_value_push(lower, digits[n as int]);
    }
    if digits.len() > 0 {
        assert(digits.subrange(0, 0) =~= Seq::<u32>::empty());
    }
}

/// A number is at least any of its digits times the power of its place.
pub proof fn lemma_value_at_least(digits: Seq<u32>, i: nat)
    requires
        i < digits.len(),
    ensures
        digits_value(digits) >= digits[i as int] * base_to(i),
    decreases i,
{
    if i > 0 {
        let rest = digits.drop_first();
        lemma_value_at_least(rest, (i - 1) as nat);
        let lower = digits[i as int] * base_to((i - 1) as nat);
        assert(base() * digits_value(rest) >= digits[i as int] * (base() * base_to((i - 1) as nat)))
            by (nonlinear_arith)
            requires
                digits_value(rest) >= lower,
                lower == digits[i as int] * base_to((i - 1) as nat),
        ;
    } else {
        assert(digits[0] * base_to(0) == digits[0]) by (nonlinear_arith)
            requires
                base_to(0) == 1,
        ;
    }
}

/// A whole number of any size, zero included.
#[derive(Debug, PartialEq, Eq)]
pub struct Natural {
    digits: Vec<u32>,
}

impl View for Natural {
    type V = nat;

    closed spec fn view(&self) -> nat {
        digits_value(self.digits@)
    }
}

impl Clone for Natural {
    fn clone(&self) -> (copy: Self)
        ensures
            copy@ == self@,
    {
        let mut digits: Vec<u32> = Vec::new();
        let mut i: usize = 0;
        while i < self.digits.len()
            invariant
                i <= self.digits.len(),
                digits@ == self.digits@.subrange(0, i as int),
            decreases self.digits.len() - i,
        {
            digits.push(self.digits[i]);
            i += 1;
        }
        proof {
            assert(digits@ =~= self.digits@);
        }
        Natural { digits }
    }
}

impl Natural {
    /// The number `value`.
    pub fn from_u64(value: u64) -> (number: Natural)
        ensures
            number@ == value,
    {
        let low: u32 = (value % 0x1_0000_0000) as u32;
        let high: u32 = (value / 0x1_0000_0000) as u32;
        let mut digits: Vec<u32> = Vec::new();
        digits.push(low);
        digits.push(high);
        proof {
            lemma_value_push(Seq::<u32>::empty(), low);
            lemma_value_push(Seq::<u32>::empty().push(low), high);
            reveal_with_fuel(base_to, 3);
            assert(low * base_to(0) + high * base_to(1) == low + base() * high) by (nonlinear_arith)
                requires
                    base_to(0) == 1,
                    base_to(1) == base(),
            ;
        }
        Natural { digits }
    }

    /// The number times `factor`, plus `addend`.
    pub fn times_plus(&self, factor: u32, addend: u32) -> (result: Natural)
        ensures
            result@ == self@ * factor + addend,
    {
        let mut out: Vec<u32> = Vec::new();
        let mut carry: u64 = addend as u64;
        let mut i: usize = 0;
        proof {
            lemma_low_value_step(self.digits@, 0);
            assert(0 * factor == 0) by (nonlinear_arith);
            assert(carry * base_to(0) == carry) by (nonlinear_arith)
                requires
                    base_to(0) == 1,
            ;
        }
        while i < self.digits.len()
            invariant
                i <= self.digits.len(),
                out.len() == i,
                carry < 0x1_0000_0000,
                digits_value(out@) + carry * base_to(i as nat) == low_value(self.digits@, i as nat)
                    * factor + addend,
            decreases self.digits.len() - i,
        {
            let digit = self.digits[i];
            assert(digit as u64 * factor as u64 + carry <= 0xffff_ffff * 0xffff_ffff + 0xffff_ffff)
                by (nonlinear_arith)
                requires
                    digit <= 0xffff_ffff,
                    factor <= 0xffff_ffff,
                    carry <= 0xffff_ffff,
            ;
            let current: u64 = digit as u64 * factor as u64 + carry;
            let low: u32 = (current % 0x1_0000_0000) as u32;
            let high: u64 = current / 0x1_0000_0000;
            proof {
                lemma_value_push(out@, low);
                lemma_low_value_step(self.digits@, i as nat);
                let p = base_to(i as nat);
                let v = digits_value(out@);
                let l = low_value(self.digits@, i as nat);
                assert(base_to((i + 1) as nat) == base() * p);
                assert((v + low * p) + high * (base() * p) == (l + digit * p) * factor + addend)
                    by (nonlinear_arith)
                    requires
                        v + carry * p == l * factor + addend,
                        digit * factor + carry == low + high * base(),
                ;
            }
            out.push(low);
            carry = high;
            i += 1;
        }
        if carry != 0 {
            proof {
                lemma_value_push(out@, carry as u32);
            }
            out.push(carry as u32);
        } else {
            proof {
                assert(carry * base_to(i as nat) == 0) by (nonlinear_arith)
                    requires
                        carry == 0,
                ;
            }
        }
        Natural { digits: out }
    }

    /// The sum of two numbers.
    pub fn plus(&self, other: &Natural) -> (sum: Natural)
        ensures
            sum@ == self@ + other@,
    {
        let longest: usize = if self.digits.len() > other.digits.len() {
            self.digits.len()
        } else {
            other.digits.len()
        };
        let mut out: Vec<u32> = Vec::new();
        let mut carry: u64 = 0;
        let mut i: usize = 0;
        proof {
            lemma_low_value_step(self.digits@, 0);
            lemma_low_value_step(other.digits@, 0);
            assert(carry * base_to(0) == 0) by (nonlinear_arith)
                requires
                    carry == 0,
            ;
        }
        while i < longest
            invariant
                i <= longest,
                longest >= self.digits.len(),
                longest >= other.digits.len(),
                out.len() == i,
                carry <= 1,
                digits_value(out@) + carry * base_to(i as nat) == low_value(self.digits@, i as nat)
                    + low_value(other.digits@, i as nat),
            decreases longest - i,
        {
            let a: u32 = if i < self.digits.len() {
                self.digits[i]
            } else {
                0
            };
            let b: u32 = if i < other.digits.len() {
                other.digits[i]
            } else {
                0
            };
            let current: u64 = a as u64 + b as u64 + carry;
            let low: u32 = (current % 0x1_0000_0000) as u32;
            let high: u64 = current / 0x1_0000_0000;
            proof {
                lemma_value_push(out@, low);
                lemma_low_value_step(self.digits@, i as nat);
                lemma_low_value_step(other.digits@, i as nat);
                let p = base_to(i as nat);
                let v = digits_value(out@);
                let x = low_value(self.digits@, i as nat);
                let y = low_value(other.digits@, i as nat);
                assert(base_to((i + 1) as nat) == base() * p);
                assert((v + low * p) + high * (base() * p) == (x + a * p) + (y + b * p))
                    by (nonlinear_arith)
                    requires
                        v + carry * p == x + y,
                        a + b + carry == low + high * base(),
                ;
            }
            out.push(low);
            carry = high;
            i += 1;
        }
        if carry != 0 {
            proof {
                lemma_value_push(out@, carry as u32);
            }
            out.push(carry as u32);
        } else {
            proof {
                assert(carry * base_to(i as nat) == 0) by (nonlinear_arith)
                    requires
                        carry == 0,
                ;
            }
        }
        Natural { digits: out }
    }

    /// The number divided by `divisor`, rounded down, and the remainder.
    pub fn divided_by(&self, divisor: u32) -> (result: (Natural, u32))
        requires
            divisor > 0,
        ensures
            result.0@ == self@ / (divisor as nat),
            result.1 == self@ % (divisor as nat),
    {
        let n: usize = self.digits.len();
        let mut quotient: Vec<u32> = Vec::new();
        while quotient.len() < n
            invariant
                quotient.len() <= n,
            decreases n - quotient.len(),
        {
            quotient.push(0);
        }
        let mut remainder: u64 = 0;
        let mut i: usize = n;
        proof {
            assert(self.digits@.subrange(n as int, n as int) =~= Seq::<u32>::empty());
            assert(quotient@.subrange(n as int, n as int) =~= Seq::<u32>::empty());
            assert(0 * divisor == 0) by (nonlinear_arith);
        }
        while i > 0
            invariant
                i <= n,
                n == self.digits.len(),
                quotient.len() == n,
                divisor > 0,
                remainder < divisor,
                digits_value(self.digits@.subrange(i as int, n as int)) == digits_value(
                    quotient@.subrange(i as int, n as int),
                ) * divisor + remainder,
            decreases i,
        {
            let digit = self.digits[i - 1];
            assert(remainder * 0x1_0000_0000 + digit < divisor * 0x1_0000_0000) by (nonlinear_arith)
                requires
                    remainder + 1 <= divisor,
                    digit < 0x1_0000_0000,
            ;
            let current: u64 = remainder * 0x1_0000_0000 + digit as u64;
            let q: u64 = current / divisor as u64;
            let r: u64 = current % divisor as u64;
            assert(q < 0x1_0000_0000) by (nonlinear_arith)
                requires
                    current < divisor * 0x1_0000_0000,
                    q == current / (divisor as u64),
                    divisor > 0,
            ;
            let ghost before = quotient@;
            quotient.set(i - 1, q as u32);
            proof {
                let upper = self.digits@.subrange(i as int, n as int);
                let whole = self.digits@.subrange(i - 1, n as int);
                assert(whole.drop_first() =~= upper);
                let q_upper = before.subrange(i as int, n as int);
                let q_whole = quotient@.subrange(i - 1, n as int);
                assert(q_whole.drop_first() =~= q_upper);
                assert(quotient@.subrange(i as int, n as int) =~= q_upper);
                let big = digits_value(q_upper);
                lemma_fundamental_div_mod(current as int, divisor as int);
                assert(remainder * base() + digit == q * divisor + r) by (nonlinear_arith)
                    requires
                        current == remainder * base() + digit,
                        current == divisor * q + r,
                ;
                assert(digit + base() * (big * divisor + remainder) == (q + base() * big) * divisor
                    + r) by (nonlinear_arith)
                    requires
                        remainder * base() + digit == q * divisor + r,
                ;
            }
            remainder = r;
            i -= 1;
        }
        proof {
            assert(self.digits@.subrange(0, n as int) =~= self.digits@);
            assert(quotient@.subrange(0, n as int) =~= quotient@);
            lemma_fundamental_div_mod_converse(
                digits_value(self.digits@) as int,
                divisor as int,
                digits_value(quotient@) as int,
                remainder as int,
            );
        }
        (Natural { digits: quotient }, remainder as u32)
    }

    /// The number as a `u64`, where it is small enough for one.
    pub fn to_u64(&self) -> (value: Option<u64>)
        ensures
            self@ <= u64::MAX ==> value == Some(self@ as u64),
            self@ > u64::MAX ==> value is None,
    {
        let n: usize = self.digits.len();
        let low: u64 = if n > 0 {
            self.digits[0] as u64
        } else {
            0
        };
        let high: u64 = if n > 1 {
            self.digits[1] as u64
        } else {
            0
        };
        proof {
            lemma_low_value_step(self.digits@, 0);
            lemma_low_value_step(self.digits@, 1);
            reveal_with_fuel(base_to, 3);
            assert(base_to(1) == base());
            assert(low * base_to(0) == low) by (nonlinear_arith)
                requires
                    base_to(0) == 1,
            ;
        }
        let mut i: usize = 2;
        while i < n
            invariant
                2 <= i,
                n == self.digits.len(),
                low_value(self.digits@, i as nat) == low + high * base(),
            decreases n - i,
        {
            if self.digits[i] != 0 {
                proof {
                    lemma_value_at_least(self.digits@, i as nat);
                    lemma_base_to_grows(2, i as nat);
                    reveal_with_fuel(base_to, 3);
                    assert(base_to(2) == base() * base());
                    let d = self.digits@[i as int];
                    assert(d * base_to(i as nat) >= base_to(2)) by (nonlinear_arith)
                        requires
                            d >= 1,
                            base_to(i as nat) >= base_to(2),
                    ;
                }
                return None;
            }
            proof {
                lemma_low_value_step(self.digits@, i as nat);
                assert(0 * base_to(i as nat) == 0) by (nonlinear_arith);
            }
            i += 1;
        }
        assert(high * 0x1_0000_0000 + low <= u64::MAX) by (nonlinear_arith)
            requires
                high <= 0xffff_ffff,
                low <= 0xffff_ffff,
        ;
        Some(high * 0x1_0000_0000 + low)
    }
}

} // verus!
