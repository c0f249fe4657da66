use vstd::prelude::*;
use crate::distance::Distance;
use crate::fraction::Fraction;
use crate::mix::Mix;

verus! {

/// A parametric curve over the parameter range [0, 1], with a cheap estimate
/// of its arc length used to apportion sampling effort.
pub trait Curve<T: Mix + Distance>: Sized {
    /// The point at parameter `t`, as a pure function.
    spec fn spec_value_at(&self, t: Fraction) -> T;

    /// The arc-length estimate, as a pure function.
    spec fn spec_estimate(&self) -> nat;

    /// The point at parameter `t`.
    fn value_at(&self, t: Fraction) -> (r: T)
        requires
            t.wf(),
        ensures
            r == self.spec_value_at(t),
    ;

    /// A cheap arc-length bound: exact for a straight segment, an
    /// approximation otherwise.
    fn estimate_length(&self) -> (r: u64)
        ensures
            r as nat == self.spec_estimate(),
    ;

    /// The point where the curve begins.
    fn first_point(&self) -> (r: T)
        ensures
            r == self.spec_value_at(Fraction { num: 0u64, den: 1u64 }),
    {
        self.value_at(Fraction { num: 0, den: 1 })
    }

    /// The point where the curve ends.
    fn last_point(&self) -> (r: T)
        ensures
            r == self.spec_value_at(Fraction { num: 1u64, den: 1u64 }),
    {
        self.value_at(Fraction { num: 1, den: 1 })
    }
}

} // verus!
