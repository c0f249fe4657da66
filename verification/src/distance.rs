use vstd::prelude::*;
use crate::mix::Pair;
use crate::time::lemma_u64_product_fits;

verus! {

/// The floor of the square root of `n`: the unique `r` with
/// `r * r <= n < (r + 1) * (r + 1)`.
pub open spec fn spec_isqrt(n: nat) -> nat {
    choose|r: nat| #[trigger] (r * r) <= n < (r + 1) * (r + 1)
}

/// The square-root characterization has exactly one solution, so `spec_isqrt`
/// equals any witness of it.
pub proof fn lemma_isqrt_unique(n: nat, r: nat)
    requires
        r * r <= n < (r + 1) * (r + 1),
    ensures
        spec_isqrt(n) == r,
{
    assert(exists|q: nat| #[trigger] (q * q) <= n < (q + 1) * (q + 1)) by {
        assert(r * r <= n < (r + 1) * (r + 1));
    }
    let c = spec_isqrt(n);
    assert(c * c <= n < (c + 1) * (c + 1));
    if c < r {
        assert((c + 1) * (c + 1) <= r * r) by (nonlinear_arith)
            requires
                c + 1 <= r,
        ;
    }
    if r < c {
        assert((r + 1) * (r + 1) <= c * c) by (nonlinear_arith)
            requires
                r + 1 <= c,
        ;
    }
}

/// The floor of the square root, by binary search over the answer.
pub fn isqrt(n: u128) -> (r: u64)
    ensures
        r as nat == spec_isqrt(n as nat),
        r as int * r as int <= n,
        n < (r as int + 1) * (r as int + 1),
{
    let mut lo: u64 = 0;
    let mut hi: u64 = u64::MAX;
    proof {
        assert((u64::MAX as int + 1) * (u64::MAX as int + 1) > u128::MAX) by (nonlinear_arith);
    }
    while lo < hi
        invariant
            lo <= hi,
            lo as int * lo as int <= n,
            n < (hi as int + 1) * (hi as int + 1),
        decreases hi - lo,
    {
        let mid: u64 = hi - (hi - lo) / 2;
        proof {
            lemma_u64_product_fits(mid as int, mid as int);
        }
        let sq: u128 = (mid as u128) * (mid as u128);
        if sq <= n {
            lo = mid;
        } else {
            hi = mid - 1;
        }
    }
    proof {
        lemma_isqrt_unique(n as nat, lo as nat);
    }
    lo
}

/// The saturating sum of two squares of 64-bit magnitudes.
pub open spec fn spec_sq_sum(a: nat, b: nat) -> nat {
    if a * a + b * b > u128::MAX {
        u128::MAX as nat
    } else {
        a * a + b * b
    }
}

/// The capability a value type needs for arc-length estimation: a
/// non-negative integer distance between two values. It is never used for
/// blending, only for measuring.
pub trait Distance: Sized + Copy {
    /// What `distance` returns, as a pure function of the operands.
    spec fn spec_distance(self, other: Self) -> nat;

    /// The distance between two values.
    fn distance(self, other: Self) -> (r: u64)
        ensures
            r as nat == self.spec_distance(other),
    ;
}

impl Distance for i64 {
    open spec fn spec_distance(self, other: Self) -> nat {
        if self >= other {
            (self - other) as nat
        } else {
            (other - self) as nat
        }
    }

    fn distance(self, other: Self) -> (r: u64) {
        if self >= other {
            (self as i128 - other as i128) as u64
        } else {
            (other as i128 - self as i128) as u64
        }
    }
}

impl Distance for u64 {
    open spec fn spec_distance(self, other: Self) -> nat {
        if self >= other {
            (self - other) as nat
        } else {
            (other - self) as nat
        }
    }

    fn distance(self, other: Self) -> (r: u64) {
        if self >= other {
            self - other
        } else {
            other - self
        }
    }
}

impl Distance for i32 {
    open spec fn spec_distance(self, other: Self) -> nat {
        if self >= other {
            (self - other) as nat
        } else {
            (other - self) as nat
        }
    }

    fn distance(self, other: Self) -> (r: u64) {
        if self >= other {
            (self as i64 - other as i64) as u64
        } else {
            (other as i64 - self as i64) as u64
        }
    }
}

impl Distance for u32 {
    open spec fn spec_distance(self, other: Self) -> nat {
        if self >= other {
            (self - other) as nat
        } else {
            (other - self) as nat
        }
    }

    fn distance(self, other: Self) -> (r: u64) {
        if self >= other {
            (self - other) as u64
        } else {
            (other - self) as u64
        }
    }
}

impl Distance for bool {
    open spec fn spec_distance(self, other: Self) -> nat {
        if self == other {
            0
        } else {
            1
        }
    }

    fn distance(self, other: Self) -> (r: u64) {
        if self == other {
            0
        } else {
            1
        }
    }
}

impl<A: Distance, B: Distance> Distance for Pair<A, B> {
    open spec fn spec_distance(self, other: Self) -> nat {
        spec_isqrt(spec_sq_sum(self.a.spec_distance(other.a), self.b.spec_distance(other.b)))
    }

    fn distance(self, other: Self) -> (r: u64) {
        let da = self.a.distance(other.a);
        let db = self.b.distance(other.b);
        proof {
            lemma_u64_product_fits(da as int, da as int);
            lemma_u64_product_fits(db as int, db as int);
        }
        let qa: u128 = (da as u128) * (da as u128);
        let qb: u128 = (db as u128) * (db as u128);
        let s: u128 = if qa > u128::MAX - qb {
            u128::MAX
        } else {
            qa + qb
        };
        isqrt(s)
    }
}

} // verus!
