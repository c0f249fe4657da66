use vstd::prelude::*;
use crate::fraction::{Factor, Fraction};

verus! {

/// A non-negative span of time, counted in integer ticks. The tick is the
/// caller's unit: milliseconds, microseconds, frames — the algebra never
/// assumes a particular one.
#[derive(Clone, Copy, Debug, PartialEq, Eq, Structural)]
pub struct Duration {
    pub ticks: u64,
}

impl Duration {
    pub fn zero() -> (r: Duration)
        ensures
            r.ticks == 0,
    {
        Duration { ticks: 0 }
    }

    pub fn from_ticks(ticks: u64) -> (r: Duration)
        ensures
            r.ticks == ticks,
    {
        Duration { ticks }
    }

    pub fn is_zero(&self) -> (r: bool)
        ensures
            r == (self.ticks == 0),
    {
        self.ticks == 0
    }

    /// The sum of two durations. Callers keep totals within the tick range;
    /// composite templates carry that bound in their well-formedness.
    pub fn add(&self, other: &Duration) -> (r: Duration)
        requires
            self.ticks + other.ticks <= u64::MAX,
        ensures
            r.ticks == self.ticks + other.ticks,
    {
        Duration { ticks: self.ticks + other.ticks }
    }

    /// The difference of two durations, saturating at zero.
    pub fn saturating_sub(&self, other: &Duration) -> (r: Duration)
        ensures
            r.ticks == if self.ticks >= other.ticks {
                self.ticks - other.ticks
            } else {
                0
            },
    {
        if self.ticks >= other.ticks {
            Duration { ticks: self.ticks - other.ticks }
        } else {
            Duration { ticks: 0 }
        }
    }

    /// This duration as an exact fraction of `whole`. Only meaningful for a
    /// part of a positive whole, which is what the evaluation paths produce
    /// after clamping an offset to a template's duration.
    pub fn as_fraction_of(&self, whole: &Duration) -> (r: Fraction)
        requires
            1 <= whole.ticks,
            self.ticks <= whole.ticks,
        ensures
            r == (Fraction { num: self.ticks, den: whole.ticks }),
            r.wf(),
    {
        Fraction { num: self.ticks, den: whole.ticks }
    }

    /// This duration scaled by a non-negative factor, rounded to the nearest
    /// tick.
    pub fn scale(&self, factor: &Factor) -> (r: Duration)
        requires
            factor.wf(),
            factor.spec_apply(self.ticks as nat) <= u64::MAX,
        ensures
            r.ticks == factor.spec_apply(self.ticks as nat),
    {
        proof {
            lemma_u64_product_fits(self.ticks as int, factor.num as int);
        }
        let wide: u128 = self.ticks as u128 * factor.num as u128 + (factor.den / 2) as u128;
        let q: u128 = wide / (factor.den as u128);
        Duration { ticks: q as u64 }
    }

    /// This duration scaled by a non-negative factor, rounded up to the
    /// next whole tick.
    pub fn scale_ceil(&self, factor: &Factor) -> (r: Duration)
        requires
            factor.wf(),
            factor.spec_apply_ceil(self.ticks as nat) <= u64::MAX,
        ensures
            r.ticks == factor.spec_apply_ceil(self.ticks as nat),
    {
        proof {
            lemma_u64_product_fits(self.ticks as int, factor.num as int);
        }
        let wide: u128 = self.ticks as u128 * factor.num as u128 + (factor.den - 1) as u128;
        let q: u128 = wide / (factor.den as u128);
        Duration { ticks: q as u64 }
    }

    /// This duration divided by a positive factor, rounded to the nearest
    /// tick.
    pub fn unscale(&self, factor: &Factor) -> (r: Duration)
        requires
            factor.wf(),
            factor.is_positive(),
            factor.spec_unapply(self.ticks as nat) <= u64::MAX,
        ensures
            r.ticks == factor.spec_unapply(self.ticks as nat),
    {
        proof {
            lemma_u64_product_fits(self.ticks as int, factor.den as int);
        }
        let wide: u128 = self.ticks as u128 * factor.den as u128 + (factor.num / 2) as u128;
        let q: u128 = wide / (factor.num as u128);
        Duration { ticks: q as u64 }
    }
}

/// The product of two tick-sized values, together with one more tick-sized
/// summand, stays comfortably inside 128 bits.
pub proof fn lemma_u64_product_fits(a: int, b: int)
    requires
        0 <= a <= u64::MAX,
        0 <= b <= u64::MAX,
    ensures
        a * b + u64::MAX <= u128::MAX,
{
    assert(a * b <= u64::MAX * u64::MAX) by (nonlinear_arith)
        requires
            0 <= a <= u64::MAX,
            0 <= b <= u64::MAX,
    ;
}

/// A point on the caller's clock, counted in the same integer ticks as
/// `Duration`. The engine never reads a clock of its own: every query carries
/// the time it is asked about.
#[derive(Clone, Copy, Debug, PartialEq, Eq, Structural)]
pub struct Tick {
    pub at: u64,
}

impl Tick {
    pub fn from_ticks(at: u64) -> (r: Tick)
        ensures
            r.at == at,
    {
        Tick { at }
    }

    /// The duration since an earlier point. Asking about a point in the
    /// future is a caller contract violation, excluded here rather than
    /// silently clamped.
    pub fn since(&self, earlier: &Tick) -> (r: Duration)
        requires
            earlier.at <= self.at,
        ensures
            r.ticks == self.at - earlier.at,
    {
        Duration { ticks: self.at - earlier.at }
    }

    /// The point reached after waiting for `duration`.
    pub fn advance(&self, duration: &Duration) -> (r: Tick)
        requires
            self.at + duration.ticks <= u64::MAX,
        ensures
            r.at == self.at + duration.ticks,
    {
        Tick { at: self.at + duration.ticks }
    }
}

} // verus!
