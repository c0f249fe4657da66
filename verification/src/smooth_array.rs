use vstd::prelude::*;
use vstd::arithmetic::mul::{
    lemma_mul_inequality, lemma_mul_is_distributive_sub_other_way, lemma_mul_strictly_positive,
    lemma_mul_upper_bound,
};
use crate::fraction::Fraction;
use crate::mix::lemma_mul_div_le;
use crate::time::lemma_u64_product_fits;

verus! {

/// The number of fixed-point units in one: lookup tables and curve parameters
/// are stored as multiples of `1 / FIXED_ONE`.
pub const FIXED_ONE: u64 = 0x1_0000_0000;

/// The largest number of slots a lookup table may have.
pub const TABLE_MAX: usize = 4096;

/// The largest value a table slot may hold: enough for a curve parameter that
/// counts `TABLE_MAX` segments in units of `1 / FIXED_ONE`.
pub const VALUE_MAX: u64 = 0x1000_0000_0000;

/// Linear interpolation between two table values at the rational position
/// `num / den`, rounded down.
pub open spec fn lerp_u64(v1: u64, v2: u64, num: int, den: int) -> u64
    recommends
        1 <= den,
        0 <= num <= den,
{
    if v2 >= v1 {
        (v1 + (v2 - v1) * num / den) as u64
    } else {
        (v1 - (v1 - v2) * num / den) as u64
    }
}

/// A linear interpolation between two table values stays between them.
pub proof fn lemma_lerp_le(v1: u64, v2: u64, num: int, den: int)
    requires
        1 <= den,
        0 <= num <= den,
    ensures
        lerp_u64(v1, v2, num, den) <= (if v1 >= v2 {
            v1
        } else {
            v2
        }),
{
    if v2 >= v1 {
        lemma_mul_div_le((v2 - v1) as nat, num as nat, den as nat);
    } else {
        lemma_mul_div_le((v1 - v2) as nat, num as nat, den as nat);
        vstd::arithmetic::div_mod::lemma_div_pos_is_pos((v1 - v2) * num, den);
    }
}

/// A table of values over the index range [0, 1]: a query position is mapped
/// onto the slots, and values between two slots are interpolated linearly.
/// Easing curves and arc-length tables are both stored this way.
#[derive(Clone, Debug)]
pub struct SmoothArray {
    pub data: Vec<u64>,
}

impl SmoothArray {
    pub open spec fn wf(&self) -> bool {
        &&& 1 <= self.data.len() <= TABLE_MAX
        &&& forall|i: int| 0 <= i < self.data.len() ==> self.data[i] <= VALUE_MAX
    }

    /// The slot pair a query at position `t` falls between, and the value
    /// interpolated from it.
    pub open spec fn spec_value_at(&self, t: Fraction) -> u64
        recommends
            self.wf(),
            t.wf(),
    {
        let last = self.data.len() - 1;
        let pn = t.num * last;
        let i1 = pn / (t.den as int);
        let rem = pn % (t.den as int);
        let i2 = if i1 + 1 <= last {
            i1 + 1
        } else {
            last
        };
        lerp_u64(self.data[i1], self.data[i2], rem, t.den as int)
    }

    /// A table with the given number of slots, all holding zero.
    pub fn new(steps_count: usize) -> (r: SmoothArray)
        requires
            1 <= steps_count <= TABLE_MAX,
        ensures
            r.wf(),
            r.data.len() == steps_count,
            forall|i: int| 0 <= i < steps_count ==> r.data[i] == 0,
    {
        let mut data: Vec<u64> = Vec::new();
        let mut i: usize = 0;
        while i < steps_count
            invariant
                i <= steps_count,
                data.len() == i,
                forall|j: int| 0 <= j < i ==> data[j] == 0,
            decreases steps_count - i,
        {
            data.push(0);
            i = i + 1;
        }
        SmoothArray { data }
    }

    /// A table holding the given values.
    pub fn from_values(values: Vec<u64>) -> (r: SmoothArray)
        requires
            1 <= values.len() <= TABLE_MAX,
            forall|i: int| 0 <= i < values.len() ==> values[i] <= VALUE_MAX,
        ensures
            r.wf(),
            r.data == values,
    {
        SmoothArray { data: values }
    }

    /// The interpolated value at position `t` in [0, 1].
    pub fn value_at(&self, t: Fraction) -> (r: u64)
        requires
            self.wf(),
            t.wf(),
        ensures
            r == self.spec_value_at(t),
            r <= VALUE_MAX,
    {
        let last: usize = self.data.len() - 1;
        proof {
            lemma_u64_product_fits(t.num as int, last as int);
        }
        let pn: u128 = t.num as u128 * last as u128;
        let den: u128 = t.den as u128;
        let i1w: u128 = pn / den;
        let rem: u128 = pn % den;
        proof {
            lemma_mul_div_le(last as nat, t.num as nat, t.den as nat);
            assert(last as int * t.num == t.num * last as int);
        }
        let i1: usize = i1w as usize;
        let i2: usize = if i1 + 1 <= last {
            i1 + 1
        } else {
            i1
        };
        let v1: u64 = self.data[i1];
        let v2: u64 = self.data[i2];
        if v2 >= v1 {
            let dv: u128 = (v2 - v1) as u128;
            proof {
                lemma_u64_product_fits((v2 - v1) as int, (pn % den) as int);
                lemma_mul_div_le((v2 - v1) as nat, (pn % den) as nat, t.den as nat);
            }
            let mag: u128 = dv * rem / den;
            v1 + (mag as u64)
        } else {
            let dv: u128 = (v1 - v2) as u128;
            proof {
                lemma_u64_product_fits((v1 - v2) as int, (pn % den) as int);
                lemma_mul_div_le((v1 - v2) as nat, (pn % den) as nat, t.den as nat);
            }
            let mag: u128 = dv * rem / den;
            v1 - (mag as u64)
        }
    }

    /// True when slot `k` of a table with last slot `last` lies inside the
    /// span from `n1 / den` to `n2 / den`.
    pub open spec fn slot_in_span(k: int, last: int, n1: int, n2: int, den: int) -> bool {
        n1 * last <= k * den <= n2 * last
    }

    /// The value a slot inside the span receives: the linear interpolation
    /// between `v1` at `n1 / den` and `v2` at `n2 / den`.
    pub open spec fn spec_span_value(
        k: int,
        last: int,
        n1: u64,
        v1: u64,
        n2: u64,
        v2: u64,
        den: u64,
    ) -> u64 {
        lerp_u64(v1, v2, k * den - n1 * last, (n2 - n1) * last)
    }

    /// Draw one linear piece of a curve into the table: every slot whose
    /// position lies between `n1 / den` and `n2 / den` receives the value
    /// interpolated between `v1` and `v2`; every other slot keeps its value.
    pub fn line(&mut self, n1: u64, v1: u64, n2: u64, v2: u64, den: u64)
        requires
            old(self).wf(),
            2 <= old(self).data.len(),
            1 <= den,
            n1 < n2,
            n2 <= den,
            v1 <= VALUE_MAX,
            v2 <= VALUE_MAX,
        ensures
            final(self).wf(),
            final(self).data.len() == old(self).data.len(),
            forall|k: int|
                0 <= k < final(self).data.len() ==> final(self).data[k] == (
                if Self::slot_in_span(k, old(self).data.len() - 1, n1 as int, n2 as int, den as int) {
                    Self::spec_span_value(k, old(self).data.len() - 1, n1, v1, n2, v2, den)
                } else {
                    old(self).data[k]
                }),
    {
        let last: usize = self.data.len() - 1;
        proof {
            lemma_u64_product_fits(n1 as int, last as int);
            lemma_u64_product_fits(n2 as int, last as int);
            lemma_mul_inequality(n1 as int, n2 as int, last as int);
        }
        let lo: u128 = n1 as u128 * last as u128;
        let hi: u128 = n2 as u128 * last as u128;
        let span: u128 = hi - lo;
        proof {
            lemma_mul_is_distributive_sub_other_way(last as int, n2 as int, n1 as int);
            lemma_mul_upper_bound((n2 - n1) as int, u64::MAX as int, last as int, TABLE_MAX as int);
            lemma_mul_strictly_positive((n2 - n1) as int, last as int);
        }
        let ghost orig = self.data;
        let mut k: usize = 0;
        while k <= last
            invariant
                old(self).wf(),
                orig == old(self).data,
                self.data.len() == orig.len(),
                last == orig.len() - 1,
                k <= last + 1,
                1 <= den,
                n1 < n2,
                n2 <= den,
                v1 <= VALUE_MAX,
                v2 <= VALUE_MAX,
                lo == n1 * last,
                hi == n2 * last,
                span == (n2 - n1) * last,
                span <= u64::MAX as int * TABLE_MAX as int,
                lo <= hi,
                span == hi - lo,
                1 <= span,
                forall|j: int| 0 <= j < self.data.len() ==> self.data[j] <= VALUE_MAX,
                forall|j: int|
                    0 <= j < k ==> self.data[j] == (
                    if Self::slot_in_span(j, last as int, n1 as int, n2 as int, den as int) {
                        Self::spec_span_value(j, last as int, n1, v1, n2, v2, den)
                    } else {
                        orig[j]
                    }),
                forall|j: int| k <= j < self.data.len() ==> self.data[j] == orig[j],
            decreases last + 1 - k,
        {
            proof {
                lemma_u64_product_fits(k as int, den as int);
            }
            let pos: u128 = k as u128 * den as u128;
            if lo <= pos && pos <= hi {
                let num_f: u128 = pos - lo;
                let val: u64 = if v2 >= v1 {
                    let dv: u128 = (v2 - v1) as u128;
                    proof {
                        assert(dv * num_f <= VALUE_MAX as int * (u64::MAX as int * TABLE_MAX as int))
                            by (nonlinear_arith)
                            requires
                                0 <= dv <= VALUE_MAX,
                                0 <= num_f <= u64::MAX as int * TABLE_MAX as int,
                        ;
                        lemma_mul_inequality(n2 - n1, den as int, last as int);
                        lemma_mul_inequality(last as int, TABLE_MAX as int, den as int);
                        lemma_mul_div_le((v2 - v1) as nat, num_f as nat, span as nat);
                    }
                    v1 + ((dv * num_f / span) as u64)
                } else {
                    let dv: u128 = (v1 - v2) as u128;
                    proof {
                        assert(dv * num_f <= VALUE_MAX as int * (u64::MAX as int * TABLE_MAX as int))
                            by (nonlinear_arith)
                            requires
                                0 <= dv <= VALUE_MAX,
                                0 <= num_f <= u64::MAX as int * TABLE_MAX as int,
                        ;
                        lemma_mul_inequality(n2 - n1, den as int, last as int);
                        lemma_mul_inequality(last as int, TABLE_MAX as int, den as int);
                        lemma_mul_div_le((v1 - v2) as nat, num_f as nat, span as nat);
                    }
                    v1 - ((dv * num_f / span) as u64)
                };
                self.data.set(k, val);
            }
            k = k + 1;
        }
    }
}

} // verus!
