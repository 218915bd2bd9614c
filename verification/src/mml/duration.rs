//! How long a note value lasts, in beats and in seconds, as exact
//! fractions of any size.
//!
//! A quarter note is one beat. A note value of length `n` lasts `4 / n`
//! beats and `240 / (bpm * n)` seconds, times the multiplier of its dots;
//! a length of zero lasts no time. Tied values add up.

use vstd::prelude::*;
use vstd::arithmetic::div_mod::lemma_div_denominator;
use crate::mml::ast::{Duration, Note, Rest, TiedDuration, TiedDurationView};
use crate::mml::natural::Natural;

verus! {

/// An exact fraction of integers of any size, as contracts speak of it.
pub struct Ratio {
    pub num: int,
    pub den: int,
}

impl Ratio {
    /// The sum of two fractions over the product of their denominators.
    pub open spec fn plus(self, other: Ratio) -> Ratio {
        Ratio { num: self.num * other.den + other.num * self.den, den: self.den * other.den }
    }

    /// The fraction divided by a whole number.
    pub open spec fn over(self, divisor: int) -> Ratio {
        Ratio { num: self.num, den: self.den * divisor }
    }

    /// The fraction, where its denominator is positive; a fraction over
    /// zero is none.
    pub open spec fn checked(self) -> Option<Ratio> {
        if self.den > 0 {
            Some(self)
        } else {
            None
        }
    }

    /// The fraction times `factor`, rounded to the nearest whole number,
    /// halves up.
    pub open spec fn rounded_times(self, factor: int) -> int
        recommends
            self.den > 0,
    {
        (2 * self.num * factor + self.den) / (2 * self.den)
    }

    /// `rounded_times`, where the denominator is positive and the result
    /// fits 64 bits.
    pub open spec fn checked_rounded_times(self, factor: int) -> Option<u64> {
        if self.den <= 0 || self.rounded_times(factor) > u64::MAX {
            None
        } else {
            Some(self.rounded_times(factor) as u64)
        }
    }
}

/// The product of factors; of none, 1.
pub open spec fn product(factors: Seq<u32>) -> nat
    decreases factors.len(),
{
    if factors.len() == 0 {
        1
    } else {
        product(factors.drop_last()) * (factors.last() as nat)
    }
}

/// An exact fraction that is not negative, of any size. The numerator is
/// a whole number of any size; the denominator is kept as the factors it
/// is the product of. The fraction is kept as it was computed, not in
/// lowest terms.
#[derive(Debug, PartialEq, Eq)]
pub struct Fraction {
    num: Natural,
    den: Vec<u32>,
}

impl View for Fraction {
    type V = Ratio;

    closed spec fn view(&self) -> Ratio {
        Ratio { num: self.num@ as int, den: product(self.den@) as int }
    }
}

/// Two to the power `n`.
pub open spec fn two_to(n: nat) -> nat
    decreases n,
{
    if n == 0 {
        1
    } else {
        2 * two_to((n - 1) as nat)
    }
}

/// What `dots` dots multiply a note value by: `2 - 1 / 2^dots`, which is 1,
/// 3/2, 7/4, 15/8 for no dot up to three dots.
pub open spec fn dot_multiplier(dots: nat) -> Ratio {
    Ratio { num: 2 * two_to(dots) - 1, den: two_to(dots) as int }
}

/// The length that counts for a note value: its own, or the default.
pub open spec fn effective_length(duration: Duration, default_length: u8) -> int {
    match duration.value {
        Some(value) => value as int,
        None => default_length as int,
    }
}

/// The beats that a note value lasts.
pub open spec fn beats(duration: Duration, default_length: u8) -> Ratio {
    let length = effective_length(duration, default_length);
    if length == 0 {
        Ratio { num: 0, den: 1 }
    } else {
        Ratio {
            num: 4 * dot_multiplier(duration.dots as nat).num,
            den: length * dot_multiplier(duration.dots as nat).den,
        }
    }
}

/// The seconds that a note value lasts at `bpm` beats a minute.
pub open spec fn seconds(duration: Duration, bpm: u16, default_length: u8) -> Ratio {
    let length = effective_length(duration, default_length);
    if length == 0 {
        Ratio { num: 0, den: 1 }
    } else {
        Ratio {
            num: 240 * dot_multiplier(duration.dots as nat).num,
            den: bpm * length * dot_multiplier(duration.dots as nat).den,
        }
    }
}

/// The beats of the first `n` of `tied`, added to `start` one after the
/// other.
pub open spec fn beats_sum(start: Ratio, tied: Seq<Duration>, n: nat, default_length: u8) -> Ratio
    decreases n,
{
    if n == 0 || n > tied.len() {
        start
    } else {
        beats_sum(start, tied, (n - 1) as nat, default_length).plus(
            beats(tied[n - 1], default_length),
        )
    }
}

/// The seconds of the first `n` of `tied`, added to `start` one after the
/// other.
pub open spec fn seconds_sum(
    start: Ratio,
    tied: Seq<Duration>,
    n: nat,
    bpm: u16,
    default_length: u8,
) -> Ratio
    decreases n,
{
    if n == 0 || n > tied.len() {
        start
    } else {
        seconds_sum(start, tied, (n - 1) as nat, bpm, default_length).plus(
            seconds(tied[n - 1], bpm, default_length),
        )
    }
}

/// The beats that a tied duration lasts: those of its base and of every
/// tied value.
pub open spec fn total_beats(duration: TiedDurationView, default_length: u8) -> Ratio {
    beats_sum(beats(duration.base, default_length), duration.tied, duration.tied.len(), default_length)
}

/// The seconds that a tied duration lasts: those of its base and of every
/// tied value.
pub open spec fn total_seconds(duration: TiedDurationView, bpm: u16, default_length: u8) -> Ratio {
    seconds_sum(
        seconds(duration.base, bpm, default_length),
        duration.tied,
        duration.tied.len(),
        bpm,
        default_length,
    )
}

/// Powers of two grow.
pub proof fn lemma_two_to_grows(m: nat, n: nat)
    requires
        m <= n,
    ensures
        1 <= two_to(m) <= two_to(n),
    decreases n,
{
    if n > 0 {
        if m < n {
            lemma_two_to_grows(m, (n - 1) as nat);
        } else {
            lemma_two_to_grows((m - 1) as nat, (n - 1) as nat);
        }
    }
}

/// The multipliers of no dot up to three dots are 1, 3/2, 7/4 and 15/8.
pub proof fn lemma_dot_multipliers()
    ensures
        dot_multiplier(0) == (Ratio { num: 1, den: 1 }),
        dot_multiplier(1) == (Ratio { num: 3, den: 2 }),
        dot_multiplier(2) == (Ratio { num: 7, den: 4 }),
        dot_multiplier(3) == (Ratio { num: 15, den: 8 }),
{
    reveal_with_fuel(two_to, 5);
}

/// The multiplier of any number of dots is `1 + (1 - 1 / 2^dots)`: it lies
/// from 1 up to 2, and 2 is never reached.
pub proof fn lemma_dot_multiplier_bounds(dots: nat)
    ensures
        dot_multiplier(dots).den >= 1,
        dot_multiplier(dots).den <= dot_multiplier(dots).num < 2 * dot_multiplier(dots).den,
        dot_multiplier(dots).num - dot_multiplier(dots).den == dot_multiplier(dots).den - 1,
{
    lemma_two_to_grows(0, dots);
}

/// A sum of two fractions that are not negative is at least as large, in
/// both parts, as the first of them.
pub proof fn lemma_plus_grows(a: Ratio, b: Ratio)
    requires
        a.num >= 0,
        a.den >= 1,
        b.num >= 0,
        b.den >= 1,
    ensures
        a.plus(b).num >= a.num,
        a.plus(b).den >= a.den,
        a.plus(b).num >= b.num,
        a.plus(b).den >= b.den,
        a.plus(b).num >= 0,
        a.plus(b).den >= 1,
{
    assert(b.num * a.den >= b.num) by (nonlinear_arith)
        requires
            b.num >= 0,
            a.den >= 1,
    ;
    assert(a.num * b.den >= 0) by (nonlinear_arith)
        requires
            a.num >= 0,
            b.den >= 1,
    ;
    assert(a.den * b.den >= b.den) by (nonlinear_arith)
        requires
            a.den >= 1,
            b.den >= 1,
    ;
    assert(a.num * b.den >= a.num) by (nonlinear_arith)
        requires
            a.num >= 0,
            b.den >= 1,
    ;
    assert(b.num * a.den >= 0) by (nonlinear_arith)
        requires
            b.num >= 0,
            a.den >= 1,
    ;
    assert(a.den * b.den >= a.den) by (nonlinear_arith)
        requires
            a.den >= 1,
            b.den >= 1,
    ;
}

/// The beats of a note value are not negative, over a positive
/// denominator.
pub proof fn lemma_beats_positive(duration: Duration, default_length: u8)
    ensures
        beats(duration, default_length).num >= 0,
        beats(duration, default_length).den >= 1,
{
    lemma_dot_multiplier_bounds(duration.dots as nat);
    let length = effective_length(duration, default_length);
    let m = dot_multiplier(duration.dots as nat);
    if length != 0 {
        assert(length * m.den >= 1) by (nonlinear_arith)
            requires
                length >= 1,
                m.den >= 1,
        ;
    }
}

/// At a tempo above zero the seconds of a note value are not negative,
/// over a positive denominator.
pub proof fn lemma_seconds_positive(duration: Duration, bpm: u16, default_length: u8)
    requires
        bpm > 0,
    ensures
        seconds(duration, bpm, default_length).num >= 0,
        seconds(duration, bpm, default_length).den >= 1,
{
    lemma_dot_multiplier_bounds(duration.dots as nat);
    let length = effective_length(duration, default_length);
    let m = dot_multiplier(duration.dots as nat);
    if length != 0 {
        assert(bpm * length * m.den >= 1) by (nonlinear_arith)
            requires
                bpm >= 1,
                length >= 1,
                m.den >= 1,
        ;
    }
}

/// Adding more tied values makes neither part of the sum smaller.
pub proof fn lemma_beats_sum_grows(
    start: Ratio,
    tied: Seq<Duration>,
    m: nat,
    n: nat,
    default_length: u8,
)
    requires
        start.num >= 0,
        start.den >= 1,
        m <= n <= tied.len(),
    ensures
        beats_sum(start, tied, m, default_length).num >= 0,
        beats_sum(start, tied, m, default_length).den >= 1,
        beats_sum(start, tied, n, default_length).num >= beats_sum(
            start,
            tied,
            m,
            default_length,
        ).num,
        beats_sum(start, tied, n, default_length).den >= beats_sum(
            start,
            tied,
            m,
            default_length,
        ).den,
    decreases n,
{
    if n == 0 {
    } else if m == n {
        lemma_beats_sum_grows(start, tied, (m - 1) as nat, (n - 1) as nat, default_length);
        lemma_beats_positive(tied[n - 1], default_length);
        lemma_plus_grows(
            beats_sum(start, tied, (n - 1) as nat, default_length),
            beats(tied[n - 1], default_length),
        );
    } else {
        lemma_beats_sum_grows(start, tied, m, (n - 1) as nat, default_length);
        lemma_beats_sum_grows(start, tied, (n - 1) as nat, (n - 1) as nat, default_length);
        lemma_beats_positive(tied[n - 1], default_length);
        lemma_plus_grows(
            beats_sum(start, tied, (n - 1) as nat, default_length),
            beats(tied[n - 1], default_length),
        );
    }
}

/// Adding more tied values makes neither part of the sum smaller.
pub proof fn lemma_seconds_sum_grows(
    start: Ratio,
    tied: Seq<Duration>,
    m: nat,
    n: nat,
    bpm: u16,
    default_length: u8,
)
    requires
        bpm > 0,
        start.num >= 0,
        start.den >= 1,
        m <= n <= tied.len(),
    ensures
        seconds_sum(start, tied, m, bpm, default_length).num >= 0,
        seconds_sum(start, tied, m, bpm, default_length).den >= 1,
        seconds_sum(start, tied, n, bpm, default_length).num >= seconds_sum(
            start,
            tied,
            m,
            bpm,
            default_length,
        ).num,
        seconds_sum(start, tied, n, bpm, default_length).den >= seconds_sum(
            start,
            tied,
            m,
            bpm,
            default_length,
        ).den,
    decreases n,
{
    if n == 0 {
    } else if m == n {
        lemma_seconds_sum_grows(start, tied, (m - 1) as nat, (n - 1) as nat, bpm, default_length);
        lemma_seconds_positive(tied[n - 1], bpm, default_length);
        lemma_plus_grows(
            seconds_sum(start, tied, (n - 1) as nat, bpm, default_length),
            seconds(tied[n - 1], bpm, default_length),
        );
    } else {
        lemma_seconds_sum_grows(start, tied, m, (n - 1) as nat, bpm, default_length);
        lemma_seconds_sum_grows(start, tied, (n - 1) as nat, (n - 1) as nat, bpm, default_length);
        lemma_seconds_positive(tied[n - 1], bpm, default_length);
        lemma_plus_grows(
            seconds_sum(start, tied, (n - 1) as nat, bpm, default_length),
            seconds(tied[n - 1], bpm, default_length),
        );
    }
}

/// One more factor multiplies the product by it.
pub proof fn lemma_product_push(factors: Seq<u32>, factor: u32)
    ensures
        product(factors.push(factor)) == product(factors) * factor,
{
    assert(factors.push(factor).drop_last() =~= factors);
}

/// The product of two runs of factors in a row is the product of their
/// products.
pub proof fn lemma_product_concat(first: Seq<u32>, second: Seq<u32>)
    ensures
        product(first + second) == product(first) * product(second),
    decreases second.len(),
{
    if second.len() == 0 {
        assert(first + second =~= first);
        assert(product(first) * 1 == product(first)) by (nonlinear_arith);
    } else {
        let front = second.drop_last();
        assert((first + second).drop_last() =~= first + front);
        lemma_product_concat(first, front);
        assert((product(first) * product(front)) * second.last() == product(first) * (product(
            front,
        ) * second.last())) by (nonlinear_arith);
    }
}

/// A product with a factor of zero is zero.
pub proof fn lemma_product_zero(factors: Seq<u32>, i: int)
    requires
        0 <= i < factors.len(),
        factors[i] == 0,
    ensures
        product(factors) == 0,
    decreases factors.len(),
{
    if i == factors.len() - 1 {
        assert(product(factors.drop_last()) * 0 == 0) by (nonlinear_arith);
    } else {
        lemma_product_zero(factors.drop_last(), i);
        assert(0 * factors.last() == 0) by (nonlinear_arith);
    }
}

/// A product of factors that are not zero is not zero.
pub proof fn lemma_product_positive(factors: Seq<u32>)
    requires
        forall|i: int| 0 <= i < factors.len() ==> factors[i] > 0,
    ensures
        product(factors) >= 1,
    decreases factors.len(),
{
    if factors.len() > 0 {
        lemma_product_positive(factors.drop_last());
        assert(product(factors.drop_last()) * factors.last() >= 1) by (nonlinear_arith)
            requires
                product(factors.drop_last()) >= 1,
                factors.last() >= 1,
        ;
    }
}

/// `number` times every one of `factors`.
fn times_all(number: &Natural, factors: &Vec<u32>) -> (result: Natural)
    ensures
        result@ == number@ * product(factors@),
{
    let mut result = number.clone();
    let mut i: usize = 0;
    proof {
        assert(factors@.subrange(0, 0) =~= Seq::<u32>::empty());
        assert(number@ * 1 == number@) by (nonlinear_arith);
    }
    while i < factors.len()
        invariant
            i <= factors.len(),
            result@ == number@ * product(factors@.subrange(0, i as int)),
        decreases factors.len() - i,
    {
        proof {
            let done = factors@.subrange(0, i as int);
            assert(factors@.subrange(0, i + 1) =~= done.push(factors@[i as int]));
            lemma_product_push(done, factors@[i as int]);
            assert((number@ * product(done)) * factors@[i as int] == number@ * (product(done)
                * factors@[i as int])) by (nonlinear_arith);
        }
        result = result.times_plus(factors[i], 0);
        i += 1;
    }
    proof {
        assert(factors@.subrange(0, i as int) =~= factors@);
    }
    result
}

/// A copy of `first` with `second` after it.
fn joined(first: &Vec<u32>, second: &Vec<u32>) -> (both: Vec<u32>)
    ensures
        both@ == first@ + second@,
{
    let mut both: Vec<u32> = Vec::new();
    let mut i: usize = 0;
    while i < first.len()
        invariant
            i <= first.len(),
            both@ == first@.subrange(0, i as int),
        decreases first.len() - i,
    {
        both.push(first[i]);
        i += 1;
    }
    let mut j: usize = 0;
    proof {
        assert(first@.subrange(0, i as int) =~= first@);
        assert(both@ =~= first@ + second@.subrange(0, 0));
    }
    while j < second.len()
        invariant
            j <= second.len(),
            both@ == first@ + second@.subrange(0, j as int),
        decreases second.len() - j,
    {
        both.push(second[j]);
        proof {
            assert(both@ =~= first@ + second@.subrange(0, j + 1));
        }
        j += 1;
    }
    proof {
        assert(second@.subrange(0, j as int) =~= second@);
    }
    both
}

impl Clone for Fraction {
    fn clone(&self) -> (copy: Self)
        ensures
            copy@ == self@,
    {
        let none: Vec<u32> = Vec::new();
        let den = joined(&self.den, &none);
        proof {
            assert(self.den@ + none@ =~= self.den@);
        }
        Fraction { num: self.num.clone(), den }
    }
}

impl Fraction {
    /// The fraction `num / den`.
    pub fn new(num: u64, den: u32) -> (fraction: Fraction)
        ensures
            fraction@ == (Ratio { num: num as int, den: den as int }),
    {
        let mut factors: Vec<u32> = Vec::new();
        proof {
            lemma_product_push(factors@, den);
            assert(1 * den == den) by (nonlinear_arith);
        }
        factors.push(den);
        Fraction { num: Natural::from_u64(num), den: factors }
    }

    /// The sum of two fractions, over the product of their denominators.
    pub fn plus(&self, other: &Fraction) -> (sum: Fraction)
        ensures
            sum@ == self@.plus(other@),
    {
        let left = times_all(&self.num, &other.den);
        let right = times_all(&other.num, &self.den);
        let num = left.plus(&right);
        let den = joined(&self.den, &other.den);
        proof {
            lemma_product_concat(self.den@, other.den@);
        }
        Fraction { num, den }
    }

    /// The fraction divided by `divisor`.
    pub fn over(&self, divisor: u8) -> (quotient: Fraction)
        ensures
            quotient@ == self@.over(divisor as int),
    {
        let mut quotient = self.clone();
        proof {
            lemma_product_push(quotient.den@, divisor as u32);
        }
        quotient.den.push(divisor as u32);
        quotient
    }

    /// The numerator, where it fits 64 bits.
    pub fn numerator(&self) -> (num: Option<u64>)
        ensures
            self@.num <= u64::MAX ==> num == Some(self@.num as u64),
            self@.num > u64::MAX ==> num is None,
    {
        self.num.to_u64()
    }

    /// The denominator, where it fits 64 bits.
    pub fn denominator(&self) -> (den: Option<u64>)
        ensures
            self@.den <= u64::MAX ==> den == Some(self@.den as u64),
            self@.den > u64::MAX ==> den is None,
    {
        let one = Natural::from_u64(1);
        proof {
            assert(1 * product(self.den@) == product(self.den@)) by (nonlinear_arith);
        }
        times_all(&one, &self.den).to_u64()
    }

    /// The fraction times `factor`, rounded to the nearest whole number,
    /// halves up. `None` where the denominator is zero or the result does
    /// not fit 64 bits.
    pub fn rounded_times(&self, factor: u32) -> (rounded: Option<u64>)
        ensures
            rounded == self@.checked_rounded_times(factor as int),
    {
        let mut k: usize = 0;
        while k < self.den.len()
            invariant
                k <= self.den.len(),
                forall|j: int| 0 <= j < k ==> self.den@[j] > 0,
            decreases self.den.len() - k,
        {
            if self.den[k] == 0 {
                proof {
                    lemma_product_zero(self.den@, k as int);
                }
                return None;
            }
            k += 1;
        }
        let ghost whole = product(self.den@);
        let one = Natural::from_u64(1);
        let den = times_all(&one, &self.den);
        let top = self.num.times_plus(2, 0).times_plus(factor, 0).plus(&den);
        let ghost t = top@;
        proof {
            lemma_product_positive(self.den@);
            assert(1 * whole == whole) by (nonlinear_arith);
            assert(t == 2 * self.num@ * factor + whole) by (nonlinear_arith)
                requires
                    t == (self.num@ * 2 + 0) * factor + 0 + whole,
            ;
        }
        let mut quotient = top.divided_by(2).0;
        let mut i: usize = 0;
        proof {
            assert(self.den@.subrange(0, 0) =~= Seq::<u32>::empty());
            assert(2 * product(self.den@.subrange(0, 0)) == 2);
        }
        while i < self.den.len()
            invariant
                i <= self.den.len(),
                forall|j: int| 0 <= j < self.den.len() ==> self.den@[j] > 0,
                product(self.den@.subrange(0, i as int)) >= 1,
                quotient@ == t / (2 * product(self.den@.subrange(0, i as int))),
            decreases self.den.len() - i,
        {
            proof {
                let done = self.den@.subrange(0, i as int);
                let next = self.den@[i as int];
                assert(self.den@.subrange(0, i + 1) =~= done.push(next));
                lemma_product_push(done, next);
                lemma_div_denominator(t as int, (2 * product(done)) as int, next as int);
                assert((2 * product(done)) * next == 2 * (product(done) * next))
                    by (nonlinear_arith);
                assert(product(done) * next >= 1) by (nonlinear_arith)
                    requires
                        product(done) >= 1,
                        next >= 1,
                ;
            }
            quotient = quotient.divided_by(self.den[i]).0;
            i += 1;
        }
        proof {
            assert(self.den@.subrange(0, i as int) =~= self.den@);
        }
        quotient.to_u64()
    }
}

/// The numerator of the multiplier of `dots` dots.
fn dotted(dots: u8) -> (number: Natural)
    ensures
        number@ == 2 * two_to(dots as nat) - 1,
{
    let mut number = Natural::from_u64(1);
    let mut i: u8 = 0;
    proof {
        lemma_two_to_grows(0, dots as nat);
    }
    while i < dots
        invariant
            i <= dots,
            number@ == 2 * two_to(i as nat) - 1,
        decreases dots - i,
    {
        proof {
            lemma_two_to_grows(0, i as nat);
            assert(two_to((i + 1) as nat) == 2 * two_to(i as nat));
        }
        number = number.times_plus(2, 1);
        i += 1;
    }
    number
}

/// Adds to `factors` as many factors of two as a note value has dots.
fn push_halvings(factors: &mut Vec<u32>, dots: u8)
    ensures
        product(final(factors)@) == product(old(factors)@) * two_to(dots as nat),
{
    let ghost start = product(factors@);
    let mut i: u8 = 0;
    proof {
        assert(start * 1 == start) by (nonlinear_arith);
    }
    while i < dots
        invariant
            i <= dots,
            product(factors@) == start * two_to(i as nat),
        decreases dots - i,
    {
        proof {
            lemma_product_push(factors@, 2);
            assert((start * two_to(i as nat)) * 2 == start * (2 * two_to(i as nat)))
                by (nonlinear_arith);
        }
        factors.push(2);
        i += 1;
    }
}

/// The multiplier of `dots` dots.
pub fn dot_multiplier_of(dots: u8) -> (multiplier: Fraction)
    ensures
        multiplier@ == dot_multiplier(dots as nat),
{
    let mut den: Vec<u32> = Vec::new();
    push_halvings(&mut den, dots);
    proof {
        assert(1 * two_to(dots as nat) == two_to(dots as nat)) by (nonlinear_arith);
    }
    Fraction { num: dotted(dots), den }
}

impl Duration {
    /// The beats that the note value lasts, a quarter note being one beat:
    /// four over the length that counts, times the multiplier of the dots.
    /// A length of zero lasts no beats.
    pub fn to_beats(&self, default_duration: u8) -> (result: Fraction)
        ensures
            result@ == beats(*self, default_duration),
    {
        let length: u8 = match self.value {
            Some(value) => value,
            None => default_duration,
        };
        let mut den: Vec<u32> = Vec::new();
        if length == 0 {
            return Fraction { num: Natural::from_u64(0), den };
        }
        proof {
            lemma_product_push(den@, length as u32);
            assert(1 * length == length) by (nonlinear_arith);
            lemma_two_to_grows(0, self.dots as nat);
        }
        den.push(length as u32);
        push_halvings(&mut den, self.dots);
        let num = dotted(self.dots).times_plus(4, 0);
        proof {
            let m = dot_multiplier(self.dots as nat);
            assert(m.num * 4 + 0 == 4 * m.num);
        }
        Fraction { num, den }
    }

    /// The seconds that the note value lasts at `bpm` beats a minute: 240
    /// over the tempo times the length that counts, times the multiplier of
    /// the dots. A length of zero lasts no time. `None` at a tempo of zero,
    /// and only there.
    pub fn duration_in_seconds(&self, bpm: u16, default_length: u8) -> (result: Option<Fraction>)
        ensures
            bpm == 0 ==> result is None,
            bpm > 0 ==> result is Some && result->0@ == seconds(*self, bpm, default_length),
    {
        if bpm == 0 {
            return None;
        }
        let length: u8 = match self.value {
            Some(value) => value,
            None => default_length,
        };
        let mut den: Vec<u32> = Vec::new();
        if length == 0 {
            return Some(Fraction { num: Natural::from_u64(0), den });
        }
        proof {
            lemma_product_push(den@, bpm as u32);
            lemma_product_push(den@.push(bpm as u32), length as u32);
            assert(1 * bpm == bpm) by (nonlinear_arith);
            lemma_two_to_grows(0, self.dots as nat);
        }
        den.push(bpm as u32);
        den.push(length as u32);
        push_halvings(&mut den, self.dots);
        let num = dotted(self.dots).times_plus(240, 0);
        proof {
            let m = dot_multiplier(self.dots as nat);
            assert(m.num * 240 + 0 == 240 * m.num);
        }
        Some(Fraction { num, den })
    }
}

impl TiedDuration {
    /// The beats that the whole lasts: those of the base and of every tied
    /// value, added up.
    pub fn total_beats(&self, default_duration: u8) -> (result: Fraction)
        ensures
            result@ == total_beats(self@, default_duration),
    {
        let ghost start = beats(self.base, default_duration);
        let mut total = self.base.to_beats(default_duration);
        let mut i: usize = 0;
        while i < self.tied.len()
            invariant
                i <= self.tied.len(),
                start == beats(self.base, default_duration),
                total@ == beats_sum(start, self.tied@, i as nat, default_duration),
            decreases self.tied.len() - i,
        {
            let next = self.tied[i].to_beats(default_duration);
            total = total.plus(&next);
            i += 1;
        }
        total
    }

    /// The seconds that the whole lasts at `bpm` beats a minute: those of
    /// the base and of every tied value, added up. `None` at a tempo of
    /// zero, and only there.
    pub fn total_duration_in_seconds(&self, bpm: u16, default_length: u8) -> (result: Option<
        Fraction,
    >)
        ensures
            bpm == 0 ==> result is None,
            bpm > 0 ==> result is Some && result->0@ == total_seconds(self@, bpm, default_length),
    {
        let ghost start = seconds(self.base, bpm, default_length);
        let mut total = match self.base.duration_in_seconds(bpm, default_length) {
            Some(total) => total,
            None => {
                return None;
            },
        };
        let mut i: usize = 0;
        while i < self.tied.len()
            invariant
                i <= self.tied.len(),
                bpm > 0,
                start == seconds(self.base, bpm, default_length),
                total@ == seconds_sum(start, self.tied@, i as nat, bpm, default_length),
            decreases self.tied.len() - i,
        {
            match self.tied[i].duration_in_seconds(bpm, default_length) {
                Some(next) => {
                    total = total.plus(&next);
                },
                None => {},
            }
            i += 1;
        }
        Some(total)
    }
}

impl Note {
    /// The beats that the note lasts.
    pub fn total_beats(&self, default_duration: u8) -> (result: Fraction)
        ensures
            result@ == total_beats(self@.duration, default_duration),
    {
        self.duration.total_beats(default_duration)
    }

    /// The seconds that the note lasts at `bpm` beats a minute; `None` at a
    /// tempo of zero, and only there.
    pub fn duration_in_seconds(&self, bpm: u16, default_length: u8) -> (result: Option<Fraction>)
        ensures
            bpm == 0 ==> result is None,
            bpm > 0 ==> result is Some && result->0@ == total_seconds(
                self@.duration,
                bpm,
                default_length,
            ),
    {
        self.duration.total_duration_in_seconds(bpm, default_length)
    }
}

impl Rest {
    /// The beats that the rest lasts.
    pub fn total_beats(&self, default_duration: u8) -> (result: Fraction)
        ensures
            result@ == total_beats(self@.duration, default_duration),
    {
        self.duration.total_beats(default_duration)
    }

    /// The seconds that the rest lasts at `bpm` beats a minute; `None` at a
    /// tempo of zero, and only there.
    pub fn duration_in_seconds(&self, bpm: u16, default_length: u8) -> (result: Option<Fraction>)
        ensures
            bpm == 0 ==> result is None,
            bpm > 0 ==> result is Some && result->0@ == total_seconds(
                self@.duration,
                bpm,
                default_length,
            ),
    {
        self.duration.total_duration_in_seconds(bpm, default_length)
    }
}

} // verus!
