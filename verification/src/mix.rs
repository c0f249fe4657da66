use vstd::prelude::*;
use vstd::arithmetic::div_mod::{
    lemma_basic_div, lemma_div_is_ordered, lemma_div_multiples_vanish_fancy,
};
use vstd::arithmetic::mul::lemma_mul_inequality;
use crate::fraction::Fraction;
use crate::time::lemma_u64_product_fits;

verus! {

/// The magnitude `d` scaled by the fraction `t`, rounded to the nearest unit
/// (half rounds up). This is the arithmetic core shared by every numeric
/// interpolation.
pub open spec fn scale_frac(d: nat, t: Fraction) -> nat
    recommends
        t.wf(),
{
    ((d * t.num + t.den / 2) / (t.den as int)) as nat
}

/// Scaling by a fraction never exceeds the magnitude itself.
pub proof fn lemma_scale_frac_bound(d: nat, t: Fraction)
    requires
        t.wf(),
    ensures
        scale_frac(d, t) <= d,
{
    lemma_mul_inequality(t.num as int, t.den as int, d as int);
    assert(d * t.num + t.den / 2 <= d * t.den + (t.den - 1));
    lemma_div_is_ordered(d * t.num + t.den / 2, d * t.den + (t.den - 1), t.den as int);
    lemma_div_multiples_vanish_fancy(d as int, t.den - 1, t.den as int);
}

/// Scaling by the zero fraction yields zero.
pub proof fn lemma_scale_frac_zero(d: nat, t: Fraction)
    requires
        t.wf(),
        t.is_zero(),
    ensures
        scale_frac(d, t) == 0,
{
    lemma_basic_div((t.den / 2) as int, t.den as int);
}

/// Scaling by the unit fraction yields the magnitude exactly.
pub proof fn lemma_scale_frac_one(d: nat, t: Fraction)
    requires
        t.wf(),
        t.is_one(),
    ensures
        scale_frac(d, t) == d,
{
    lemma_div_multiples_vanish_fancy(d as int, (t.den / 2) as int, t.den as int);
    assert(t.den as int * d as int == d * t.num) by (nonlinear_arith)
        requires
            t.num == t.den,
    ;
    assert((d * t.num + t.den / 2) / (t.den as int) == d as int);
}

/// Half-up rounding of a scaled fraction is monotone in the fraction's
/// value, whatever the two denominators are: a position no earlier never
/// scales to a smaller tick count.
pub proof fn lemma_scale_frac_monotone(d: nat, t1: Fraction, t2: Fraction)
    requires
        t1.wf(),
        t2.wf(),
        t1.num * t2.den <= t2.num * t1.den,
    ensures
        scale_frac(d, t1) <= scale_frac(d, t2),
{
    let n1 = t1.num as int;
    let d1 = t1.den as int;
    let n2 = t2.num as int;
    let d2 = t2.den as int;
    let h1 = d1 / 2;
    let h2 = d2 / 2;
    let r1 = (d * n1 + h1) / d1;
    let r2 = (d * n2 + h2) / d2;
    vstd::arithmetic::div_mod::lemma_fundamental_div_mod(d * n1 + h1, d1);
    vstd::arithmetic::div_mod::lemma_fundamental_div_mod(d * n2 + h2, d2);
    vstd::arithmetic::div_mod::lemma_mod_division_less_than_divisor(d * n1 + h1, d1);
    vstd::arithmetic::div_mod::lemma_mod_division_less_than_divisor(d * n2 + h2, d2);
    vstd::arithmetic::div_mod::lemma_fundamental_div_mod(d1, 2);
    vstd::arithmetic::div_mod::lemma_fundamental_div_mod(d2, 2);
    vstd::arithmetic::div_mod::lemma_mod_division_less_than_divisor(d1, 2);
    vstd::arithmetic::div_mod::lemma_mod_division_less_than_divisor(d2, 2);
    assert(d1 * (2 * r1 - 1) <= 2 * (d * n1)) by (nonlinear_arith)
        requires
            d1 * r1 <= d * n1 + h1,
            2 * h1 <= d1,
    ;
    assert(2 * (d * n2) <= d2 * (2 * r2 + 1) - 1) by (nonlinear_arith)
        requires
            d * n2 + h2 <= d2 * r2 + (d2 - 1),
            d2 - 1 <= 2 * h2,
    ;
    if r1 > r2 {
        assert(d1 * d2 * (2 * r2 + 1) <= d1 * d2 * (2 * r1 - 1)) by (nonlinear_arith)
            requires
                r2 + 1 <= r1,
                d1 >= 1,
                d2 >= 1,
        ;
        assert(d1 * d2 * (2 * r1 - 1) <= 2 * (d * n1) * d2) by (nonlinear_arith)
            requires
                d1 * (2 * r1 - 1) <= 2 * (d * n1),
                d2 >= 1,
        ;
        assert(2 * (d * n1) * d2 <= 2 * (d * n2) * d1) by (nonlinear_arith)
            requires
                n1 * d2 <= n2 * d1,
                d >= 0,
        ;
        assert(2 * (d * n2) * d1 <= (d2 * (2 * r2 + 1) - 1) * d1) by (nonlinear_arith)
            requires
                2 * (d * n2) <= d2 * (2 * r2 + 1) - 1,
                d1 >= 1,
        ;
        assert(false) by (nonlinear_arith)
            requires
                d1 * d2 * (2 * r2 + 1) <= d1 * d2 * (2 * r1 - 1),
                d1 * d2 * (2 * r1 - 1) <= 2 * (d * n1) * d2,
                2 * (d * n1) * d2 <= 2 * (d * n2) * d1,
                2 * (d * n2) * d1 <= (d2 * (2 * r2 + 1) - 1) * d1,
                d1 >= 1,
        ;
    }
}

/// Scaling `a` by the proper fraction `b / c`, rounding down, never exceeds
/// `a`.
pub proof fn lemma_mul_div_le(a: nat, b: nat, c: nat)
    requires
        b <= c,
        1 <= c,
    ensures
        a * b / c <= a,
{
    lemma_mul_inequality(b as int, c as int, a as int);
    lemma_div_is_ordered((a * b) as int, (a * c) as int, c as int);
    vstd::arithmetic::div_mod::lemma_div_by_multiple(a as int, c as int);
}

/// `d` scaled by `t`, computed in 128-bit arithmetic so that no tick-sized
/// magnitude can overflow.
pub fn frac_scale(d: u64, t: Fraction) -> (r: u64)
    requires
        t.wf(),
    ensures
        r == scale_frac(d as nat, t),
        r <= d,
{
    proof {
        lemma_u64_product_fits(d as int, t.num as int);
        lemma_scale_frac_bound(d as nat, t);
    }
    let wide: u128 = d as u128 * t.num as u128 + (t.den / 2) as u128;
    (wide / (t.den as u128)) as u64
}

/// The capability a value type needs to take part in interpolation: an exact
/// blend of two values at a fractional position, and a decidable equality so
/// that retargeting can recognize a no-op. `mix` at position zero returns the
/// first value and at position one the second, exactly — each implementation
/// proves both laws.
pub trait Mix: Sized + Copy {
    /// What `mix` returns, as a pure function of the operands and position.
    spec fn spec_mix(self, other: Self, t: Fraction) -> Self;

    /// The value at fractional position `t` between `self` and `other`.
    fn mix(self, other: Self, t: Fraction) -> (r: Self)
        requires
            t.wf(),
        ensures
            r == self.spec_mix(other, t),
    ;

    /// Structural equality, decided at run time.
    fn eq_value(&self, other: &Self) -> (r: bool)
        ensures
            r == (self == other),
    ;

    /// Blending at position zero is exactly the first value.
    proof fn lemma_mix_zero(self, other: Self, t: Fraction)
        requires
            t.wf(),
            t.is_zero(),
        ensures
            self.spec_mix(other, t) == self,
    ;

    /// Blending at position one is exactly the second value.
    proof fn lemma_mix_one(self, other: Self, t: Fraction)
        requires
            t.wf(),
            t.is_one(),
        ensures
            self.spec_mix(other, t) == other,
    ;
}

impl Mix for i64 {
    open spec fn spec_mix(self, other: Self, t: Fraction) -> Self {
        if other >= self {
            (self + scale_frac((other - self) as nat, t)) as i64
        } else {
            (self - scale_frac((self - other) as nat, t)) as i64
        }
    }

    fn mix(self, other: Self, t: Fraction) -> (r: Self) {
        if other >= self {
            let d: u64 = (other as i128 - self as i128) as u64;
            let q: u64 = frac_scale(d, t);
            ((self as i128) + (q as i128)) as i64
        } else {
            let d: u64 = (self as i128 - other as i128) as u64;
            let q: u64 = frac_scale(d, t);
            ((self as i128) - (q as i128)) as i64
        }
    }

    fn eq_value(&self, other: &Self) -> (r: bool) {
        *self == *other
    }

    proof fn lemma_mix_zero(self, other: Self, t: Fraction) {
        if other >= self {
            lemma_scale_frac_zero((other - self) as nat, t);
        } else {
            lemma_scale_frac_zero((self - other) as nat, t);
        }
    }

    proof fn lemma_mix_one(self, other: Self, t: Fraction) {
        if other >= self {
            lemma_scale_frac_one((other - self) as nat, t);
        } else {
            lemma_scale_frac_one((self - other) as nat, t);
        }
    }
}

/// An interpolated `i64` never leaves the interval spanned by its operands.
pub proof fn lemma_i64_mix_in_range(a: i64, b: i64, t: Fraction)
    requires
        t.wf(),
    ensures
        a <= b ==> a <= a.spec_mix(b, t) <= b,
        b <= a ==> b <= a.spec_mix(b, t) <= a,
{
    if b >= a {
        lemma_scale_frac_bound((b - a) as nat, t);
    } else {
        lemma_scale_frac_bound((a - b) as nat, t);
    }
}

impl Mix for u64 {
    open spec fn spec_mix(self, other: Self, t: Fraction) -> Self {
        if other >= self {
            (self + scale_frac((other - self) as nat, t)) as u64
        } else {
            (self - scale_frac((self - other) as nat, t)) as u64
        }
    }

    fn mix(self, other: Self, t: Fraction) -> (r: Self) {
        if other >= self {
            let q: u64 = frac_scale(other - self, t);
            self + q
        } else {
            let q: u64 = frac_scale(self - other, t);
            self - q
        }
    }

    fn eq_value(&self, other: &Self) -> (r: bool) {
        *self == *other
    }

    proof fn lemma_mix_zero(self, other: Self, t: Fraction) {
        if other >= self {
            lemma_scale_frac_zero((other - self) as nat, t);
        } else {
            lemma_scale_frac_zero((self - other) as nat, t);
        }
    }

    proof fn lemma_mix_one(self, other: Self, t: Fraction) {
        if other >= self {
            lemma_scale_frac_one((other - self) as nat, t);
        } else {
            lemma_scale_frac_one((self - other) as nat, t);
        }
    }
}

impl Mix for i32 {
    open spec fn spec_mix(self, other: Self, t: Fraction) -> Self {
        (self as i64).spec_mix(other as i64, t) as i32
    }

    fn mix(self, other: Self, t: Fraction) -> (r: Self) {
        let wide: i64 = (self as i64).mix(other as i64, t);
        proof {
            lemma_i64_mix_in_range(self as i64, other as i64, t);
        }
        wide as i32
    }

    fn eq_value(&self, other: &Self) -> (r: bool) {
        *self == *other
    }

    proof fn lemma_mix_zero(self, other: Self, t: Fraction) {
        (self as i64).lemma_mix_zero(other as i64, t);
    }

    proof fn lemma_mix_one(self, other: Self, t: Fraction) {
        (self as i64).lemma_mix_one(other as i64, t);
    }
}

impl Mix for u32 {
    open spec fn spec_mix(self, other: Self, t: Fraction) -> Self {
        (self as u64).spec_mix(other as u64, t) as u32
    }

    fn mix(self, other: Self, t: Fraction) -> (r: Self) {
        let wide: u64 = (self as u64).mix(other as u64, t);
        proof {
            if other >= self {
                lemma_scale_frac_bound((other - self) as nat, t);
            } else {
                lemma_scale_frac_bound((self - other) as nat, t);
            }
        }
        wide as u32
    }

    fn eq_value(&self, other: &Self) -> (r: bool) {
        *self == *other
    }

    proof fn lemma_mix_zero(self, other: Self, t: Fraction) {
        (self as u64).lemma_mix_zero(other as u64, t);
    }

    proof fn lemma_mix_one(self, other: Self, t: Fraction) {
        (self as u64).lemma_mix_one(other as u64, t);
    }
}

impl Mix for i16 {
    open spec fn spec_mix(self, other: Self, t: Fraction) -> Self {
        (self as i64).spec_mix(other as i64, t) as i16
    }

    fn mix(self, other: Self, t: Fraction) -> (r: Self) {
        let wide: i64 = (self as i64).mix(other as i64, t);
        proof {
            lemma_i64_mix_in_range(self as i64, other as i64, t);
        }
        wide as i16
    }

    fn eq_value(&self, other: &Self) -> (r: bool) {
        *self == *other
    }

    proof fn lemma_mix_zero(self, other: Self, t: Fraction) {
        (self as i64).lemma_mix_zero(other as i64, t);
    }

    proof fn lemma_mix_one(self, other: Self, t: Fraction) {
        (self as i64).lemma_mix_one(other as i64, t);
    }
}

impl Mix for u16 {
    open spec fn spec_mix(self, other: Self, t: Fraction) -> Self {
        (self as u64).spec_mix(other as u64, t) as u16
    }

    fn mix(self, other: Self, t: Fraction) -> (r: Self) {
        let wide: u64 = (self as u64).mix(other as u64, t);
        proof {
            if other >= self {
                lemma_scale_frac_bound((other - self) as nat, t);
            } else {
                lemma_scale_frac_bound((self - other) as nat, t);
            }
        }
        wide as u16
    }

    fn eq_value(&self, other: &Self) -> (r: bool) {
        *self == *other
    }

    proof fn lemma_mix_zero(self, other: Self, t: Fraction) {
        (self as u64).lemma_mix_zero(other as u64, t);
    }

    proof fn lemma_mix_one(self, other: Self, t: Fraction) {
        (self as u64).lemma_mix_one(other as u64, t);
    }
}

impl Mix for i8 {
    open spec fn spec_mix(self, other: Self, t: Fraction) -> Self {
        (self as i64).spec_mix(other as i64, t) as i8
    }

    fn mix(self, other: Self, t: Fraction) -> (r: Self) {
        let wide: i64 = (self as i64).mix(other as i64, t);
        proof {
            lemma_i64_mix_in_range(self as i64, other as i64, t);
        }
        wide as i8
    }

    fn eq_value(&self, other: &Self) -> (r: bool) {
        *self == *other
    }

    proof fn lemma_mix_zero(self, other: Self, t: Fraction) {
        (self as i64).lemma_mix_zero(other as i64, t);
    }

    proof fn lemma_mix_one(self, other: Self, t: Fraction) {
        (self as i64).lemma_mix_one(other as i64, t);
    }
}

impl Mix for u8 {
    open spec fn spec_mix(self, other: Self, t: Fraction) -> Self {
        (self as u64).spec_mix(other as u64, t) as u8
    }

    fn mix(self, other: Self, t: Fraction) -> (r: Self) {
        let wide: u64 = (self as u64).mix(other as u64, t);
        proof {
            if other >= self {
                lemma_scale_frac_bound((other - self) as nat, t);
            } else {
                lemma_scale_frac_bound((self - other) as nat, t);
            }
        }
        wide as u8
    }

    fn eq_value(&self, other: &Self) -> (r: bool) {
        *self == *other
    }

    proof fn lemma_mix_zero(self, other: Self, t: Fraction) {
        (self as u64).lemma_mix_zero(other as u64, t);
    }

    proof fn lemma_mix_one(self, other: Self, t: Fraction) {
        (self as u64).lemma_mix_one(other as u64, t);
    }
}

impl Mix for bool {
    open spec fn spec_mix(self, other: Self, t: Fraction) -> Self {
        if 2 * t.num <= t.den {
            self
        } else {
            other
        }
    }

    fn mix(self, other: Self, t: Fraction) -> (r: Self) {
        if t.at_most_half() {
            self
        } else {
            other
        }
    }

    fn eq_value(&self, other: &Self) -> (r: bool) {
        *self == *other
    }

    proof fn lemma_mix_zero(self, other: Self, t: Fraction) {
    }

    proof fn lemma_mix_one(self, other: Self, t: Fraction) {
    }
}

impl<T: Mix> Mix for Option<T> {
    open spec fn spec_mix(self, other: Self, t: Fraction) -> Self {
        match (self, other) {
            (Some(a), Some(b)) => Some(a.spec_mix(b, t)),
            (Some(a), None) => if 2 * t.num <= t.den {
                Some(a)
            } else {
                None
            },
            (None, Some(b)) => if 2 * t.num <= t.den {
                None
            } else {
                Some(b)
            },
            (None, None) => None,
        }
    }

    fn mix(self, other: Self, t: Fraction) -> (r: Self) {
        match (self, other) {
            (Some(a), Some(b)) => Some(a.mix(b, t)),
            (Some(a), None) => if t.at_most_half() {
                Some(a)
            } else {
                None
            },
            (None, Some(b)) => if t.at_most_half() {
                None
            } else {
                Some(b)
            },
            (None, None) => None,
        }
    }

    fn eq_value(&self, other: &Self) -> (r: bool) {
        match (self, other) {
            (Some(a), Some(b)) => a.eq_value(b),
            (None, None) => true,
            _ => false,
        }
    }

    proof fn lemma_mix_zero(self, other: Self, t: Fraction) {
        if let (Some(a), Some(b)) = (self, other) {
            a.lemma_mix_zero(b, t);
        }
    }

    proof fn lemma_mix_one(self, other: Self, t: Fraction) {
        if let (Some(a), Some(b)) = (self, other) {
            a.lemma_mix_one(b, t);
        }
    }
}

/// A pair of interpolatable values, blended componentwise. It stands in for
/// the elementwise lifting of aggregates: records of interpolatable fields
/// interpolate field by field.
#[derive(Clone, Copy, Debug, PartialEq, Eq, Structural)]
pub struct Pair<A, B> {
    pub a: A,
    pub b: B,
}

impl<A: Mix, B: Mix> Pair<A, B> {
    pub fn new(a: A, b: B) -> (r: Pair<A, B>)
        ensures
            r == (Pair { a, b }),
    {
        Pair { a, b }
    }
}

impl<A: Mix, B: Mix> Mix for Pair<A, B> {
    open spec fn spec_mix(self, other: Self, t: Fraction) -> Self {
        Pair { a: self.a.spec_mix(other.a, t), b: self.b.spec_mix(other.b, t) }
    }

    fn mix(self, other: Self, t: Fraction) -> (r: Self) {
        Pair { a: self.a.mix(other.a, t), b: self.b.mix(other.b, t) }
    }

    fn eq_value(&self, other: &Self) -> (r: bool) {
        self.a.eq_value(&other.a) && self.b.eq_value(&other.b)
    }

    proof fn lemma_mix_zero(self, other: Self, t: Fraction) {
        self.a.lemma_mix_zero(other.a, t);
        self.b.lemma_mix_zero(other.b, t);
    }

    proof fn lemma_mix_one(self, other: Self, t: Fraction) {
        self.a.lemma_mix_one(other.a, t);
        self.b.lemma_mix_one(other.b, t);
    }
}

} // verus!
