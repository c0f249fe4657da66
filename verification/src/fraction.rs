use vstd::prelude::*;

verus! {

/// An interpolation position inside the closed range [0, 1], kept as the exact
/// rational `num / den`. The well-formedness condition `num <= den` makes the
/// range invariant part of the type's contract, so combinators that clamp an
/// offset to a duration produce a valid position by construction.
#[derive(Clone, Copy, Debug, PartialEq, Eq, Structural)]
pub struct Fraction {
    pub num: u64,
    pub den: u64,
}

impl Fraction {
    /// A fraction is well formed when its denominator is positive and its
    /// value does not exceed one.
    pub open spec fn wf(&self) -> bool {
        1 <= self.den && self.num <= self.den
    }

    /// The position at the start of an interpolation.
    pub open spec fn is_zero(&self) -> bool {
        self.num == 0
    }

    /// The position at the end of an interpolation.
    pub open spec fn is_one(&self) -> bool {
        self.num == self.den
    }

    pub fn zero() -> (r: Fraction)
        ensures
            r.wf(),
            r.is_zero(),
    {
        Fraction { num: 0, den: 1 }
    }

    pub fn one() -> (r: Fraction)
        ensures
            r.wf(),
            r.is_one(),
    {
        Fraction { num: 1, den: 1 }
    }

    /// `num / den`, clamped from above into [0, 1].
    pub fn new(num: u64, den: u64) -> (r: Fraction)
        requires
            1 <= den,
        ensures
            r.wf(),
            r.den == den,
            r.num == if num <= den { num as int } else { den as int },
    {
        if num <= den {
            Fraction { num, den }
        } else {
            Fraction { num: den, den }
        }
    }

    /// True when the position lies in the first half of the range, including
    /// the midpoint itself.
    pub fn at_most_half(&self) -> (r: bool)
        ensures
            r == (2 * self.num <= self.den),
    {
        self.num as u128 * 2 <= self.den as u128
    }
}

/// A non-negative scaling factor, kept as the exact rational `num / den`.
/// Unlike `Fraction` it may exceed one: it scales durations, stretches a
/// template's time axis, and counts repetitions.
#[derive(Clone, Copy, Debug, PartialEq, Eq, Structural)]
pub struct Factor {
    pub num: u64,
    pub den: u64,
}

impl Factor {
    /// A factor is well formed when its denominator is positive.
    pub open spec fn wf(&self) -> bool {
        1 <= self.den
    }

    /// A factor usable for time stretching must also be positive, so that
    /// dividing an offset by it is meaningful.
    pub open spec fn is_positive(&self) -> bool {
        1 <= self.num
    }

    /// `n` scaled by this factor, rounded to the nearest tick (half rounds up).
    pub open spec fn spec_apply(&self, n: nat) -> nat
        recommends
            self.wf(),
    {
        ((n * self.num + self.den / 2) / self.den as int) as nat
    }

    /// `n` divided by this factor, rounded to the nearest tick (half rounds up).
    pub open spec fn spec_unapply(&self, n: nat) -> nat
        recommends
            self.wf(),
            self.is_positive(),
    {
        ((n * self.den + self.num / 2) / self.num as int) as nat
    }

    /// `n` scaled by this factor, rounded up to the next whole tick.
    pub open spec fn spec_apply_ceil(&self, n: nat) -> nat
        recommends
            self.wf(),
    {
        ((n * self.num + (self.den - 1)) / self.den as int) as nat
    }

    pub fn new(num: u64, den: u64) -> (r: Factor)
        requires
            1 <= den,
        ensures
            r == (Factor { num, den }),
            r.wf(),
    {
        Factor { num, den }
    }

    /// The neutral factor.
    pub fn one() -> (r: Factor)
        ensures
            r == (Factor { num: 1u64, den: 1u64 }),
            r.wf(),
            r.is_positive(),
    {
        Factor { num: 1, den: 1 }
    }
}

/// A whole number of ticks at or past the rounded-up product is at or past
/// the exact product: `o >= ceil(n * f)` implies `o * den >= n * num`.
pub proof fn lemma_apply_ceil_reaches(f: &Factor, n: nat, o: nat)
    requires
        f.wf(),
        o >= f.spec_apply_ceil(n),
    ensures
        o * f.den >= n * f.num,
{
    let x = n * f.num;
    let c = (x + (f.den - 1)) / (f.den as int);
    vstd::arithmetic::div_mod::lemma_fundamental_div_mod(x + (f.den - 1), f.den as int);
    assert(f.den as int * c >= x);
    assert(c * f.den == f.den as int * c) by (nonlinear_arith);
    vstd::arithmetic::mul::lemma_mul_inequality(c, o as int, f.den as int);
}

} // verus!
