use vstd::prelude::*;
use vstd::arithmetic::div_mod::{lemma_div_by_multiple, lemma_div_is_ordered, lemma_div_multiples_vanish};
use crate::fraction::Fraction;
use crate::mix::{
    frac_scale, lemma_mul_div_le, lemma_scale_frac_one, lemma_scale_frac_zero, scale_frac,
};
use crate::smooth_array::{SmoothArray, FIXED_ONE};

verus! {

/// The query position `t` converted to fixed point: a value in
/// `[0, FIXED_ONE]`, with zero and one carried over exactly.
pub open spec fn spec_fixed(t: Fraction) -> int
    recommends
        t.wf(),
{
    scale_frac(FIXED_ONE as nat, t) as int
}

/// `x * y / FIXED_ONE` on fixed-point operands, rounded down.
pub open spec fn spec_fx_mul(x: int, y: int) -> int {
    x * y / (FIXED_ONE as int)
}

/// The fixed-point product, with the bounds the easing curves need: a factor
/// at most one keeps the result at or under the other factor.
pub fn fx_mul(x: u64, y: u64) -> (r: u64)
    requires
        x <= 2 * FIXED_ONE,
        y <= 2 * FIXED_ONE,
    ensures
        r == spec_fx_mul(x as int, y as int),
        y <= FIXED_ONE ==> r <= x,
        x <= FIXED_ONE ==> r <= y,
{
    proof {
        assert(x as int * y as int <= 0x4_0000_0000 * (FIXED_ONE as int)) by (nonlinear_arith)
            requires
                0 <= x <= 0x2_0000_0000,
                0 <= y <= 0x2_0000_0000,
                FIXED_ONE == 0x1_0000_0000,
        ;
        lemma_div_is_ordered(
            x as int * y as int,
            0x4_0000_0000 * (FIXED_ONE as int),
            FIXED_ONE as int,
        );
        lemma_div_by_multiple(0x4_0000_0000, FIXED_ONE as int);
        if y <= FIXED_ONE {
            lemma_mul_div_le(x as nat, y as nat, FIXED_ONE as nat);
        }
        if x <= FIXED_ONE {
            lemma_mul_div_le(y as nat, x as nat, FIXED_ONE as nat);
        }
    }
    ((x as u128 * y as u128) / (FIXED_ONE as u128)) as u64
}

/// An easing curve: a mapping of the normalized progress range [0, 1] onto
/// itself that shapes the speed of an interpolation. The polynomial curves
/// are evaluated in fixed point; `Tabular` interpolates a table of samples;
/// `Step` is a staircase. `Jump` is the degenerate curve that is already at
/// the end for every input; it marks a settled value with no transition
/// shape at all.
#[derive(Clone, Debug)]
pub enum Easing {
    Linear,
    QuadraticIn,
    QuadraticOut,
    QuadraticInOut,
    CubicIn,
    CubicOut,
    CubicInOut,
    QuarticIn,
    QuarticOut,
    QuarticInOut,
    /// A staircase with the given positive number of steps.
    Step(u64),
    /// A curve described by a table of fixed-point values in
    /// `[0, FIXED_ONE]`; values in between are interpolated.
    Tabular(SmoothArray),
    Jump,
}

impl Easing {
    pub open spec fn wf(&self) -> bool {
        match self {
            Easing::Step(steps) => 1 <= *steps,
            Easing::Tabular(table) => table.wf() && forall|i: int|
                0 <= i < table.data.len() ==> #[trigger] table.data[i] <= FIXED_ONE,
            _ => true,
        }
    }

    /// The curve value at position `t`, as an exact function of the stored
    /// representation. The polynomial curves follow the classical formulas,
    /// here staged in fixed point; `in`/`out` pairs are mirror images, and
    /// the `in-out` forms glue a sped-up `in` half to a sped-up `out` half.
    pub open spec fn spec_ease(&self, t: Fraction) -> Fraction
        recommends
            self.wf(),
            t.wf(),
    {
        let s = FIXED_ONE as int;
        let x = spec_fixed(t);
        let y = s - x;
        let z = 2 * s - 2 * x;
        match self {
            Easing::Linear => t,
            Easing::QuadraticIn => Fraction { num: spec_fx_mul(x, x) as u64, den: FIXED_ONE },
            Easing::QuadraticOut => Fraction {
                num: (2 * x - spec_fx_mul(x, x)) as u64,
                den: FIXED_ONE,
            },
            Easing::QuadraticInOut => if x < s / 2 {
                Fraction { num: spec_fx_mul(2 * x, x) as u64, den: FIXED_ONE }
            } else {
                Fraction { num: (s - spec_fx_mul(z, z) / 2) as u64, den: FIXED_ONE }
            },
            Easing::CubicIn => Fraction {
                num: spec_fx_mul(spec_fx_mul(x, x), x) as u64,
                den: FIXED_ONE,
            },
            Easing::CubicOut => Fraction {
                num: (s - spec_fx_mul(spec_fx_mul(y, y), y)) as u64,
                den: FIXED_ONE,
            },
            Easing::CubicInOut => if x < s / 2 {
                Fraction { num: spec_fx_mul(spec_fx_mul(2 * x, 2 * x), x) as u64, den: FIXED_ONE }
            } else {
                Fraction { num: (s - spec_fx_mul(spec_fx_mul(z, z), z) / 2) as u64, den: FIXED_ONE }
            },
            Easing::QuarticIn => Fraction {
                num: spec_fx_mul(spec_fx_mul(x, x), spec_fx_mul(x, x)) as u64,
                den: FIXED_ONE,
            },
            Easing::QuarticOut => Fraction {
                num: (s - spec_fx_mul(spec_fx_mul(y, y), spec_fx_mul(y, y))) as u64,
                den: FIXED_ONE,
            },
            Easing::QuarticInOut => if x < s / 2 {
                Fraction {
                    num: spec_fx_mul(spec_fx_mul(2 * x, 2 * x), spec_fx_mul(2 * x, x)) as u64,
                    den: FIXED_ONE,
                }
            } else {
                Fraction {
                    num: (s - spec_fx_mul(spec_fx_mul(z, z), spec_fx_mul(z, z)) / 2) as u64,
                    den: FIXED_ONE,
                }
            },
            Easing::Step(steps) => Fraction {
                num: (t.num * *steps / (t.den as int)) as u64,
                den: *steps,
            },
            Easing::Tabular(table) => {
                let v = table.spec_value_at(t);
                Fraction {
                    num: if v <= FIXED_ONE {
                        v
                    } else {
                        FIXED_ONE
                    },
                    den: FIXED_ONE,
                }
            },
            Easing::Jump => Fraction { num: 1, den: 1 },
        }
    }

    /// The curve value at position `t`.
    pub fn ease(&self, t: Fraction) -> (r: Fraction)
        requires
            self.wf(),
            t.wf(),
        ensures
            r == self.spec_ease(t),
            r.wf(),
    {
        let s: u64 = FIXED_ONE;
        match self {
            Easing::Linear => t,
            Easing::QuadraticIn => {
                let x = frac_scale(s, t);
                Fraction { num: fx_mul(x, x), den: s }
            },
            Easing::QuadraticOut => {
                let x = frac_scale(s, t);
                let q = fx_mul(x, x);
                proof {
                    lemma_quadratic_out_bounded(x as int);
                }
                Fraction { num: 2 * x - q, den: s }
            },
            Easing::QuadraticInOut => {
                let x = frac_scale(s, t);
                if x < s / 2 {
                    Fraction { num: fx_mul(2 * x, x), den: s }
                } else {
                    let z = 2 * s - 2 * x;
                    Fraction { num: s - fx_mul(z, z) / 2, den: s }
                }
            },
            Easing::CubicIn => {
                let x = frac_scale(s, t);
                Fraction { num: fx_mul(fx_mul(x, x), x), den: s }
            },
            Easing::CubicOut => {
                let x = frac_scale(s, t);
                let y = s - x;
                Fraction { num: s - fx_mul(fx_mul(y, y), y), den: s }
            },
            Easing::CubicInOut => {
                let x = frac_scale(s, t);
                if x < s / 2 {
                    Fraction { num: fx_mul(fx_mul(2 * x, 2 * x), x), den: s }
                } else {
                    let z = 2 * s - 2 * x;
                    Fraction { num: s - fx_mul(fx_mul(z, z), z) / 2, den: s }
                }
            },
            Easing::QuarticIn => {
                let x = frac_scale(s, t);
                let q = fx_mul(x, x);
                Fraction { num: fx_mul(q, q), den: s }
            },
            Easing::QuarticOut => {
                let x = frac_scale(s, t);
                let y = s - x;
                let q = fx_mul(y, y);
                Fraction { num: s - fx_mul(q, q), den: s }
            },
            Easing::QuarticInOut => {
                let x = frac_scale(s, t);
                if x < s / 2 {
                    Fraction { num: fx_mul(fx_mul(2 * x, 2 * x), fx_mul(2 * x, x)), den: s }
                } else {
                    let z = 2 * s - 2 * x;
                    let q = fx_mul(z, z);
                    Fraction { num: s - fx_mul(q, q) / 2, den: s }
                }
            },
            Easing::Step(steps) => {
                proof {
                    crate::time::lemma_u64_product_fits(t.num as int, *steps as int);
                    lemma_mul_div_le(*steps as nat, t.num as nat, t.den as nat);
                    assert(*steps as int * t.num == t.num * *steps as int);
                }
                let k: u128 = t.num as u128 * *steps as u128 / (t.den as u128);
                Fraction { num: k as u64, den: *steps }
            },
            Easing::Tabular(table) => {
                let v = table.value_at(t);
                Fraction {
                    num: if v <= s {
                        v
                    } else {
                        s
                    },
                    den: s,
                }
            },
            Easing::Jump => Fraction { num: 1, den: 1 },
        }
    }
}

/// The quadratic-out polynomial stays inside the unit range: with `x` at most
/// one, `2x - x^2` lies between `x` and one.
proof fn lemma_quadratic_out_bounded(x: int)
    requires
        0 <= x <= FIXED_ONE,
    ensures
        spec_fx_mul(x, x) <= x,
        2 * x - spec_fx_mul(x, x) <= FIXED_ONE,
{
    let s = FIXED_ONE as int;
    lemma_mul_div_le(x as nat, x as nat, FIXED_ONE as nat);
    if 2 * x - s >= 0 {
        assert((2 * x - s) * s <= x * x) by (nonlinear_arith)
            requires
                0 <= x <= s,
        ;
        lemma_div_is_ordered((2 * x - s) * s, x * x, s);
        lemma_div_by_multiple(2 * x - s, s);
    }
}

/// The fixed-point product is monotone in both factors.
proof fn lemma_fx_mul_monotone(a1: int, b1: int, a2: int, b2: int)
    requires
        0 <= a1 <= a2,
        0 <= b1 <= b2,
    ensures
        spec_fx_mul(a1, b1) <= spec_fx_mul(a2, b2),
        0 <= spec_fx_mul(a1, b1),
{
    assert(a1 * b1 <= a2 * b2) by (nonlinear_arith)
        requires
            0 <= a1 <= a2,
            0 <= b1 <= b2,
    ;
    lemma_div_is_ordered(a1 * b1, a2 * b2, FIXED_ONE as int);
    vstd::arithmetic::mul::lemma_mul_nonnegative(a1, b1);
    vstd::arithmetic::div_mod::lemma_div_pos_is_pos(a1 * b1, FIXED_ONE as int);
}

/// A fixed-point product is an under-approximation: scaled back up by one,
/// it stays at or under the exact product.
proof fn lemma_fx_mul_under(p: int, q: int)
    requires
        0 <= p,
        0 <= q,
    ensures
        0 <= spec_fx_mul(p, q),
        spec_fx_mul(p, q) * (FIXED_ONE as int) <= p * q,
{
    let s = FIXED_ONE as int;
    vstd::arithmetic::mul::lemma_mul_nonnegative(p, q);
    vstd::arithmetic::div_mod::lemma_fundamental_div_mod(p * q, s);
    vstd::arithmetic::div_mod::lemma_mod_division_less_than_divisor(p * q, s);
    vstd::arithmetic::div_mod::lemma_div_pos_is_pos(p * q, s);
    assert(spec_fx_mul(p, q) * s == s * spec_fx_mul(p, q)) by (nonlinear_arith);
}

/// The fixed-point coordinate of the cubic-bezier sample at parameter
/// `j / 128`, for the coordinate axis whose inner control values are `c1f`
/// and `c2f`: the Bernstein-weighted sum of the four control values
/// `(0, c1f, c2f, 1)`, clamped into the unit range. Sample zero is the
/// curve's origin.
pub open spec fn spec_bezier_sample(c1f: int, c2f: int, j: int) -> int {
    if j <= 0 {
        0
    } else {
        let t = j * 0x200_0000;
        let nt = FIXED_ONE - t;
        let a = spec_fx_mul(spec_fx_mul(nt, nt), t);
        let b = spec_fx_mul(spec_fx_mul(nt, t), t);
        let c = spec_fx_mul(spec_fx_mul(t, t), t);
        let v = 3 * spec_fx_mul(a, c1f) + 3 * spec_fx_mul(b, c2f) + c;
        if v > FIXED_ONE {
            FIXED_ONE as int
        } else {
            v
        }
    }
}

/// The value table slot `k` holds once the sampled spans up to sample `j`
/// are drawn: the latest span that advances in `x` and covers the slot
/// decides its value, and a slot no span covers keeps zero.
pub open spec fn spec_bezier_slot(x1f: int, y1f: int, x2f: int, y2f: int, k: int, j: int) -> int
    decreases j,
{
    if j <= 0 {
        0
    } else {
        let px = spec_bezier_sample(x1f, x2f, j - 1);
        let x = spec_bezier_sample(x1f, x2f, j);
        if px < x && SmoothArray::slot_in_span(k, 128, px, x, FIXED_ONE as int) {
            let py = spec_bezier_sample(y1f, y2f, j - 1);
            let y = spec_bezier_sample(y1f, y2f, j);
            crate::smooth_array::lerp_u64(
                py as u64,
                y as u64,
                k * (FIXED_ONE as int) - px * 128,
                (x - px) * 128,
            ) as int
        } else {
            spec_bezier_slot(x1f, y1f, x2f, y2f, k, j - 1)
        }
    }
}

/// Bounds on one sampled cubic-bezier coordinate: the pure cubic term keeps
/// every sample away from zero, and — away from the final sample — the
/// Bernstein weights keep the clamped coordinate sum strictly under one.
proof fn lemma_bezier_sample_bounds(t: int, nt: int, fa: int, fb: int)
    requires
        0x200_0000 <= t <= FIXED_ONE,
        nt == FIXED_ONE - t,
        0 <= fa <= spec_fx_mul(spec_fx_mul(nt, nt), t),
        0 <= fb <= spec_fx_mul(spec_fx_mul(nt, t), t),
    ensures
        0x800 <= spec_fx_mul(spec_fx_mul(t, t), t),
        nt >= 0x200_0000 ==> 3 * fa + 3 * fb + spec_fx_mul(spec_fx_mul(t, t), t) <= FIXED_ONE
            - 0x800,
{
    let s = FIXED_ONE as int;
    let a1 = spec_fx_mul(nt, nt);
    let b1 = spec_fx_mul(nt, t);
    let c1 = spec_fx_mul(t, t);
    let a = spec_fx_mul(a1, t);
    let b = spec_fx_mul(b1, t);
    let c = spec_fx_mul(c1, t);
    lemma_fx_mul_under(nt, nt);
    lemma_fx_mul_under(nt, t);
    lemma_fx_mul_under(t, t);
    lemma_fx_mul_under(a1, t);
    lemma_fx_mul_under(b1, t);
    lemma_fx_mul_under(c1, t);
    assert(t * t >= 0x4_0000_0000_0000) by (nonlinear_arith)
        requires
            t >= 0x200_0000,
    ;
    lemma_div_is_ordered(0x4_0000_0000_0000, t * t, s);
    assert(c1 * t >= 0x800_0000_0000) by (nonlinear_arith)
        requires
            c1 >= 0x4_0000,
            t >= 0x200_0000,
    ;
    lemma_div_is_ordered(0x800_0000_0000, c1 * t, s);
    if nt >= 0x200_0000 {
        assert(a * (s * s) <= (nt * nt) * t) by (nonlinear_arith)
            requires
                a * s <= a1 * t,
                a1 * s <= nt * nt,
                0 <= t,
                0 <= a1,
                s > 0,
        ;
        assert(b * (s * s) <= (nt * t) * t) by (nonlinear_arith)
            requires
                b * s <= b1 * t,
                b1 * s <= nt * t,
                0 <= t,
                0 <= b1,
                s > 0,
        ;
        assert(c * (s * s) <= (t * t) * t) by (nonlinear_arith)
            requires
                c * s <= c1 * t,
                c1 * s <= t * t,
                0 <= t,
                0 <= c1,
                s > 0,
        ;
        assert((3 * fa + 3 * fb + c) * (s * s) <= 3 * ((nt * nt) * t) + 3 * ((nt * t) * t) + (t
            * t) * t) by (nonlinear_arith)
            requires
                0 <= fa <= a,
                0 <= fb <= b,
                a * (s * s) <= (nt * nt) * t,
                b * (s * s) <= (nt * t) * t,
                c * (s * s) <= (t * t) * t,
                s > 0,
        ;
        assert(3 * ((nt * nt) * t) + 3 * ((nt * t) * t) + (t * t) * t == s * (s * s) - (nt * nt)
            * nt) by (nonlinear_arith)
            requires
                nt + t == s,
        ;
        assert((nt * nt) * nt >= 0x8000000000000000000) by (nonlinear_arith)
            requires
                nt >= 0x200_0000,
        ;
        assert((3 * fa + 3 * fb + c) * (s * s) <= (s - 0x800) * (s * s)) by (nonlinear_arith)
            requires
                (3 * fa + 3 * fb + c) * (s * s) <= s * (s * s) - 0x8000000000000000000,
                s == 0x1_0000_0000,
        ;
        assert(3 * fa + 3 * fb + c <= s - 0x800) by (nonlinear_arith)
            requires
                (3 * fa + 3 * fb + c) * (s * s) <= (s - 0x800) * (s * s),
                s > 0,
        ;
    }
}

impl Easing {
    /// A cubic-bezier easing curve through the control points
    /// `(0, 0), (x1, y1), (x2, y2), (1, 1)`, sampled into a table. The curve
    /// is sampled at evenly spaced parameters, each sampled `(x, y)` pair is
    /// clamped into the unit square, and the spans between consecutive
    /// samples are drawn into the table; spans that do not advance in `x`
    /// are skipped. The table begins at zero and ends at one, so the curve
    /// maps the endpoints of the progress range exactly.
    pub fn bezier(x1: Fraction, y1: Fraction, x2: Fraction, y2: Fraction) -> (r: Easing)
        requires
            x1.wf(),
            y1.wf(),
            x2.wf(),
            y2.wf(),
        ensures
            r.wf(),
            r matches Easing::Tabular(table) && table.data.len() == 129 && (forall|k: int|
                0 <= k < 129 ==> #[trigger] table.data[k] as int == spec_bezier_slot(
                    spec_fixed(x1),
                    spec_fixed(y1),
                    spec_fixed(x2),
                    spec_fixed(y2),
                    k,
                    128,
                )),
            r.starts_at_zero(),
            r.ends_at_one(),
    {
        let s: u64 = FIXED_ONE;
        let x1f = frac_scale(s, x1);
        let y1f = frac_scale(s, y1);
        let x2f = frac_scale(s, x2);
        let y2f = frac_scale(s, y2);
        let mut table = SmoothArray::new(129);
        let mut px: u64 = 0;
        let mut py: u64 = 0;
        let mut j: u64 = 1;
        while j <= 128
            invariant
                table.wf(),
                table.data.len() == 129,
                forall|i: int| 0 <= i < table.data.len() ==> #[trigger] table.data[i] <= FIXED_ONE,
                px <= FIXED_ONE,
                py <= FIXED_ONE,
                1 <= j <= 129,
                s == FIXED_ONE,
                x1f <= FIXED_ONE,
                x2f <= FIXED_ONE,
                y1f <= FIXED_ONE,
                y2f <= FIXED_ONE,
                j == 1 ==> px == 0 && py == 0,
                2 <= j ==> table.data[0] == 0,
                2 <= j && j <= 128 ==> 1 <= px < FIXED_ONE,
                j == 129 ==> table.data[128] == FIXED_ONE,
                px as int == spec_bezier_sample(x1f as int, x2f as int, j - 1),
                py as int == spec_bezier_sample(y1f as int, y2f as int, j - 1),
                forall|k: int|
                    0 <= k < 129 ==> #[trigger] table.data[k] as int == spec_bezier_slot(
                        x1f as int,
                        y1f as int,
                        x2f as int,
                        y2f as int,
                        k,
                        j - 1,
                    ),
            decreases 129 - j,
        {
            let t: u64 = j * 0x200_0000;
            let nt: u64 = s - t;
            let a = fx_mul(fx_mul(nt, nt), t);
            let b = fx_mul(fx_mul(nt, t), t);
            let c = fx_mul(fx_mul(t, t), t);
            let fa = fx_mul(a, x1f);
            let fb = fx_mul(b, x2f);
            let xv: u64 = 3 * fa + 3 * fb + c;
            proof {
                lemma_bezier_sample_bounds(t as int, nt as int, fa as int, fb as int);
            }
            let x: u64 = if xv > s {
                s
            } else {
                xv
            };
            let yv: u64 = 3 * fx_mul(a, y1f) + 3 * fx_mul(b, y2f) + c;
            let y: u64 = if yv > s {
                s
            } else {
                yv
            };
            proof {
                assert(x as int == spec_bezier_sample(x1f as int, x2f as int, j as int));
                assert(y as int == spec_bezier_sample(y1f as int, y2f as int, j as int));
                if j == 128 {
                    assert(t == FIXED_ONE && nt == 0);
                    assert(spec_fx_mul(0, 0) == 0);
                    assert(spec_fx_mul(0, t as int) == 0);
                    assert(a == 0 && b == 0);
                    assert(spec_fx_mul(0, x1f as int) == 0);
                    assert(spec_fx_mul(0, x2f as int) == 0);
                    assert(spec_fx_mul(0, y1f as int) == 0);
                    assert(spec_fx_mul(0, y2f as int) == 0);
                    lemma_div_by_multiple(FIXED_ONE as int, FIXED_ONE as int);
                    assert(spec_fx_mul(FIXED_ONE as int, FIXED_ONE as int) == FIXED_ONE);
                    assert(c == FIXED_ONE);
                    assert(x == FIXED_ONE && y == FIXED_ONE);
                }
            }
            if px < x {
                let ghost before = table.data;
                table.line(px, py, x, y, s);
                proof {
                    assert forall|i: int|
                        0 <= i < table.data.len() implies #[trigger] table.data[i]
                        <= FIXED_ONE by {
                        if SmoothArray::slot_in_span(i, 128, px as int, x as int, s as int) {
                            vstd::arithmetic::mul::lemma_mul_is_distributive_sub_other_way(
                                128,
                                x as int,
                                px as int,
                            );
                            crate::smooth_array::lemma_lerp_le(
                                py,
                                y,
                                i * (s as int) - (px as int) * 128,
                                ((x - px) as int) * 128,
                            );
                        }
                    }
                    vstd::arithmetic::mul::lemma_mul_is_distributive_sub_other_way(
                        128,
                        x as int,
                        px as int,
                    );
                    vstd::arithmetic::mul::lemma_mul_strictly_positive(
                        (x - px) as int,
                        128,
                    );
                    if j == 1 {
                        assert(SmoothArray::slot_in_span(0, 128, 0, x as int, s as int))
                            by (nonlinear_arith)
                            requires
                                1 <= x,
                        ;
                        assert((y - py) * 0 == 0) by (nonlinear_arith);
                        lemma_div_by_multiple(0, ((x - px) as int) * 128);
                        assert(table.data[0] == 0);
                    } else {
                        assert(!SmoothArray::slot_in_span(0, 128, px as int, x as int, s as int))
                            by (nonlinear_arith)
                            requires
                                1 <= px,
                        ;
                        assert(table.data[0] == before[0]);
                    }
                    if j == 128 {
                        assert(SmoothArray::slot_in_span(128, 128, px as int, x as int, s as int))
                            by (nonlinear_arith)
                            requires
                                px <= FIXED_ONE,
                                x == FIXED_ONE,
                                s == FIXED_ONE,
                        ;
                        let den = ((x - px) as int) * 128;
                        assert(128 * (s as int) - (px as int) * 128 == den) by (nonlinear_arith)
                            requires
                                x == s,
                                den == ((x - px) as int) * 128,
                        ;
                        lemma_div_by_multiple((y - py) as int, den);
                        assert((y - py) * den / den == y - py);
                        assert(table.data[128] == FIXED_ONE);
                    }
                    assert forall|k: int|
                        0 <= k < 129 implies #[trigger] table.data[k] as int == spec_bezier_slot(
                        x1f as int,
                        y1f as int,
                        x2f as int,
                        y2f as int,
                        k,
                        j as int,
                    ) by {
                        if SmoothArray::slot_in_span(k, 128, px as int, x as int, s as int) {
                            assert(table.data[k] == SmoothArray::spec_span_value(
                                k,
                                128,
                                px,
                                py,
                                x,
                                y,
                                s,
                            ));
                        } else {
                            assert(table.data[k] == before[k]);
                        }
                    }
                }
            } else {
                proof {
                    assert(2 <= j ==> table.data[0] == 0);
                    assert forall|k: int|
                        0 <= k < 129 implies #[trigger] table.data[k] as int == spec_bezier_slot(
                        x1f as int,
                        y1f as int,
                        x2f as int,
                        y2f as int,
                        k,
                        j as int,
                    ) by {
                        assert(table.data[k] as int == spec_bezier_slot(
                            x1f as int,
                            y1f as int,
                            x2f as int,
                            y2f as int,
                            k,
                            j - 1,
                        ));
                    }
                }
            }
            px = x;
            py = y;
            j = j + 1;
        }
        Easing::Tabular(table)
    }
}

impl Default for Easing {
    /// The default curve: quadratic ease-in-out.
    fn default() -> (r: Easing)
        ensures
            r == Easing::QuadraticInOut,
    {
        Easing::QuadraticInOut
    }
}

impl Easing {
    /// True for curves that begin at zero: an interpolation under such a
    /// curve starts exactly at its first value.
    pub open spec fn starts_at_zero(&self) -> bool {
        match self {
            Easing::Jump => false,
            Easing::Tabular(table) => table.data[0] == 0,
            _ => true,
        }
    }

    /// True for curves that end at one: an interpolation under such a curve
    /// lands exactly on its second value.
    pub open spec fn ends_at_one(&self) -> bool {
        match self {
            Easing::Tabular(table) => table.data[table.data.len() - 1] == FIXED_ONE,
            _ => true,
        }
    }

    /// A curve that begins at zero maps the zero position to zero.
    pub proof fn lemma_ease_zero(&self, t: Fraction)
        requires
            self.wf(),
            t.wf(),
            t.is_zero(),
            self.starts_at_zero(),
        ensures
            self.spec_ease(t).wf(),
            self.spec_ease(t).is_zero(),
    {
        lemma_scale_frac_zero(FIXED_ONE as nat, t);
        let s = FIXED_ONE as int;
        match self {
            Easing::Step(steps) => {
                assert(0 * *steps == 0);
                lemma_div_by_multiple(0, t.den as int);
                assert(self.spec_ease(t).is_zero());
            },
            Easing::Tabular(table) => {
                assert(t.num * (table.data.len() - 1) == 0);
                vstd::arithmetic::div_mod::lemma_small_mod(0, t.den as nat);
                lemma_div_by_multiple(0, t.den as int);
                assert(self.spec_ease(t).is_zero());
            },
            Easing::Linear => {
                assert(self.spec_ease(t).is_zero());
            },
            Easing::QuadraticIn => {
                assert(self.spec_ease(t).is_zero());
            },
            Easing::QuadraticOut => {
                assert(self.spec_ease(t).is_zero());
            },
            Easing::QuadraticInOut => {
                assert(self.spec_ease(t).is_zero());
            },
            Easing::CubicIn => {
                assert(self.spec_ease(t).is_zero());
            },
            Easing::CubicOut => {
                let y = s - spec_fixed(t);
                assert(y == s);
                lemma_div_by_multiple(s, s);
                assert(y * y == s * s) by (nonlinear_arith)
                    requires
                        y == s,
                ;
                assert(spec_fx_mul(y, y) == s);
                assert(spec_fx_mul(y, y) * y == s * s) by (nonlinear_arith)
                    requires
                        spec_fx_mul(y, y) == s,
                        y == s,
                ;
                assert(spec_fx_mul(spec_fx_mul(y, y), y) == s);
                assert(self.spec_ease(t).is_zero());
            },
            Easing::CubicInOut => {
                assert(self.spec_ease(t).is_zero());
            },
            Easing::QuarticIn => {
                assert(self.spec_ease(t).is_zero());
            },
            Easing::QuarticOut => {
                let y = s - spec_fixed(t);
                assert(y == s);
                lemma_div_by_multiple(s, s);
                assert(y * y == s * s) by (nonlinear_arith)
                    requires
                        y == s,
                ;
                let q = spec_fx_mul(y, y);
                assert(q == s);
                assert(q * q == s * s) by (nonlinear_arith)
                    requires
                        q == s,
                ;
                assert(spec_fx_mul(q, q) == s);
                assert(self.spec_ease(t).is_zero());
            },
            Easing::QuarticInOut => {
                assert(self.spec_ease(t).is_zero());
            },
            Easing::Jump => {},
        }
    }

    /// Monotonicity of the identity, the accelerating polynomial forms, the
    /// staircase and the constant jump: a position no earlier never eases to
    /// an earlier value. Positions and values compare as fractions, by
    /// cross-multiplication.
    pub proof fn lemma_ease_monotone(&self, t1: Fraction, t2: Fraction)
        requires
            self.wf(),
            t1.wf(),
            t2.wf(),
            t1.num * t2.den <= t2.num * t1.den,
            self matches Easing::Linear || self matches Easing::QuadraticIn
                || self matches Easing::CubicIn || self matches Easing::QuarticIn
                || self matches Easing::Step(_) || self matches Easing::Jump,
        ensures
            self.spec_ease(t1).num * self.spec_ease(t2).den <= self.spec_ease(t2).num
                * self.spec_ease(t1).den,
    {
        let s = FIXED_ONE as int;
        let x1 = spec_fixed(t1);
        let x2 = spec_fixed(t2);
        crate::mix::lemma_scale_frac_monotone(FIXED_ONE as nat, t1, t2);
        crate::mix::lemma_scale_frac_bound(FIXED_ONE as nat, t1);
        crate::mix::lemma_scale_frac_bound(FIXED_ONE as nat, t2);
        match self {
            Easing::Linear => {},
            Easing::Jump => {},
            Easing::QuadraticIn => {
                lemma_fx_mul_monotone(x1, x1, x2, x2);
                lemma_mul_div_le(x2 as nat, x2 as nat, FIXED_ONE as nat);
                vstd::arithmetic::mul::lemma_mul_inequality(
                    spec_fx_mul(x1, x1),
                    spec_fx_mul(x2, x2),
                    s,
                );
            },
            Easing::CubicIn => {
                lemma_fx_mul_monotone(x1, x1, x2, x2);
                lemma_mul_div_le(x2 as nat, x2 as nat, FIXED_ONE as nat);
                lemma_fx_mul_monotone(spec_fx_mul(x1, x1), x1, spec_fx_mul(x2, x2), x2);
                lemma_mul_div_le(
                    spec_fx_mul(x2, x2) as nat,
                    x2 as nat,
                    FIXED_ONE as nat,
                );
                vstd::arithmetic::mul::lemma_mul_inequality(
                    spec_fx_mul(spec_fx_mul(x1, x1), x1),
                    spec_fx_mul(spec_fx_mul(x2, x2), x2),
                    s,
                );
            },
            Easing::QuarticIn => {
                lemma_fx_mul_monotone(x1, x1, x2, x2);
                lemma_mul_div_le(x2 as nat, x2 as nat, FIXED_ONE as nat);
                lemma_fx_mul_monotone(
                    spec_fx_mul(x1, x1),
                    spec_fx_mul(x1, x1),
                    spec_fx_mul(x2, x2),
                    spec_fx_mul(x2, x2),
                );
                lemma_mul_div_le(
                    spec_fx_mul(x2, x2) as nat,
                    spec_fx_mul(x2, x2) as nat,
                    FIXED_ONE as nat,
                );
                vstd::arithmetic::mul::lemma_mul_inequality(
                    spec_fx_mul(spec_fx_mul(x1, x1), spec_fx_mul(x1, x1)),
                    spec_fx_mul(spec_fx_mul(x2, x2), spec_fx_mul(x2, x2)),
                    s,
                );
            },
            Easing::Step(steps) => {
                let n1 = t1.num as int;
                let d1 = t1.den as int;
                let n2 = t2.num as int;
                let d2 = t2.den as int;
                let sp = *steps as int;
                vstd::arithmetic::mul::lemma_mul_strictly_positive(d1, d2);
                vstd::arithmetic::div_mod::lemma_div_by_multiple(n1 * sp, d2);
                vstd::arithmetic::div_mod::lemma_div_by_multiple(n2 * sp, d1);
                vstd::arithmetic::div_mod::lemma_div_denominator(n1 * sp * d2, d2, d1);
                vstd::arithmetic::div_mod::lemma_div_denominator(n2 * sp * d1, d1, d2);
                assert((n1 * sp * d2) / d2 == n1 * sp && (n2 * sp * d1) / d1 == n2 * sp)
                    by (nonlinear_arith)
                    requires
                        ((n1 * sp) * d2) / d2 == n1 * sp,
                        ((n2 * sp) * d1) / d1 == n2 * sp,
                        n1 * sp * d2 == (n1 * sp) * d2,
                        n2 * sp * d1 == (n2 * sp) * d1,
                ;
                assert(n1 * sp * d2 <= n2 * sp * d1) by (nonlinear_arith)
                    requires
                        n1 * d2 <= n2 * d1,
                        sp >= 0,
                ;
                assert(d2 * d1 == d1 * d2) by (nonlinear_arith);
                lemma_div_is_ordered(n1 * sp * d2, n2 * sp * d1, d1 * d2);
                assert(n1 * sp / d1 <= n2 * sp / d2);
                lemma_mul_div_le(sp as nat, n1 as nat, d1 as nat);
                assert(sp * n1 == n1 * sp && sp * n2 == n2 * sp) by (nonlinear_arith);
                lemma_mul_div_le(sp as nat, n2 as nat, d2 as nat);
                vstd::arithmetic::mul::lemma_mul_inequality(
                    n1 * sp / d1,
                    n2 * sp / d2,
                    sp,
                );
            },
            _ => {},
        }
    }

    /// A curve that ends at one maps the unit position to one.
    pub proof fn lemma_ease_one(&self, t: Fraction)
        requires
            self.wf(),
            t.wf(),
            t.is_one(),
            self.ends_at_one(),
        ensures
            self.spec_ease(t).wf(),
            self.spec_ease(t).is_one(),
    {
        lemma_scale_frac_one(FIXED_ONE as nat, t);
        let s = FIXED_ONE as int;
        lemma_div_by_multiple(s, s);
        match self {
            Easing::Step(steps) => {
                lemma_div_multiples_vanish(*steps as int, t.den as int);
                assert(t.num * *steps == t.den as int * *steps as int) by (nonlinear_arith)
                    requires
                        t.num == t.den,
                ;
                assert(self.spec_ease(t).is_one());
            },
            Easing::Tabular(table) => {
                let last = table.data.len() - 1;
                lemma_div_multiples_vanish(last as int, t.den as int);
                assert(t.num * last == t.den as int * last) by (nonlinear_arith)
                    requires
                        t.num == t.den,
                ;
                vstd::arithmetic::div_mod::lemma_mod_multiples_basic(last as int, t.den as int);
                assert(self.spec_ease(t).is_one());
            },
            Easing::Linear => {
                assert(self.spec_ease(t).is_one());
            },
            Easing::QuadraticIn => {
                assert(self.spec_ease(t).is_one());
            },
            Easing::QuadraticOut => {
                assert(self.spec_ease(t).is_one());
            },
            Easing::QuadraticInOut => {
                let x = spec_fixed(t);
                assert(x == FIXED_ONE as int);
                let z = 2 * s - 2 * x;
                assert(z == 0);
                assert(z * z == 0) by (nonlinear_arith)
                    requires
                        z == 0,
                ;
                lemma_div_by_multiple(0, s);
                assert(spec_fx_mul(z, z) == 0);
                assert(self.spec_ease(t).is_one());
            },
            Easing::CubicIn => {
                assert(self.spec_ease(t).is_one());
            },
            Easing::CubicOut => {
                let y = s - spec_fixed(t);
                assert(y == 0);
                assert(y * y == 0) by (nonlinear_arith)
                    requires
                        y == 0,
                ;
                lemma_div_by_multiple(0, s);
                assert(spec_fx_mul(y, y) == 0);
                assert(spec_fx_mul(y, y) * y == 0) by (nonlinear_arith)
                    requires
                        spec_fx_mul(y, y) == 0,
                ;
                assert(spec_fx_mul(spec_fx_mul(y, y), y) == 0);
                assert(self.spec_ease(t).is_one());
            },
            Easing::CubicInOut => {
                let z = 2 * s - 2 * spec_fixed(t);
                assert(z == 0);
                assert(z * z == 0) by (nonlinear_arith)
                    requires
                        z == 0,
                ;
                lemma_div_by_multiple(0, s);
                assert(spec_fx_mul(spec_fx_mul(z, z), z) == 0);
                assert(self.spec_ease(t).is_one());
            },
            Easing::QuarticIn => {
                assert(self.spec_ease(t).is_one());
            },
            Easing::QuarticOut => {
                let y = s - spec_fixed(t);
                assert(y == 0);
                assert(y * y == 0) by (nonlinear_arith)
                    requires
                        y == 0,
                ;
                lemma_div_by_multiple(0, s);
                let q = spec_fx_mul(y, y);
                assert(q == 0);
                assert(q * q == 0) by (nonlinear_arith)
                    requires
                        q == 0,
                ;
                assert(spec_fx_mul(q, q) == 0);
                assert(self.spec_ease(t).is_one());
            },
            Easing::QuarticInOut => {
                let z = 2 * s - 2 * spec_fixed(t);
                assert(z == 0);
                assert(z * z == 0) by (nonlinear_arith)
                    requires
                        z == 0,
                ;
                lemma_div_by_multiple(0, s);
                let q = spec_fx_mul(z, z);
                assert(q == 0);
                assert(q * q == 0) by (nonlinear_arith)
                    requires
                        q == 0,
                ;
                assert(spec_fx_mul(q, q) == 0);
                assert(self.spec_ease(t).is_one());
            },
            Easing::Jump => {
                assert(self.spec_ease(t).is_one());
            },
        }
    }
}

} // verus!
