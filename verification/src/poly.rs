use vstd::prelude::*;
use std::marker::PhantomData;
use crate::distance::Distance;
use crate::easing::Easing;
use crate::fraction::Fraction;
use crate::mix::{lemma_scale_frac_bound, scale_frac, Mix};
use crate::time::Duration;
use crate::transition::{clamp_frac, clamp_fraction, SequentialTransition, Transition};

verus! {

/// The saturating sum of a running arc length and one more distance.
pub open spec fn sat_add_u64(a: nat, b: nat) -> nat {
    if a + b > u64::MAX {
        u64::MAX as nat
    } else {
        a + b
    }
}

/// The cumulative arc length of a point list up to index `i`: the sum of the
/// distances between consecutive points, saturating at the tick range.
pub open spec fn spec_offset_at<T: Mix + Distance>(points: Seq<T>, i: int) -> nat
    recommends
        0 <= i < points.len(),
    decreases i,
{
    if i <= 0 {
        0
    } else {
        sat_add_u64(spec_offset_at(points, i - 1), points[i - 1].spec_distance(points[i]))
    }
}

/// The bisection of a sorted offset table: starting from the bracket
/// `[i1, i2]`, halve until the bracket is a single span, keeping the target
/// strictly above the left end.
pub open spec fn spec_bisect(offsets: Seq<u64>, target: nat, i1: int, i2: int) -> (int, int)
    recommends
        0 <= i1 < i2 < offsets.len(),
    decreases i2 - i1,
{
    if i2 - i1 <= 1 {
        (i1, i2)
    } else {
        let mid = i1 + (i2 - i1) / 2;
        if target > offsets[mid] {
            spec_bisect(offsets, target, mid, i2)
        } else {
            spec_bisect(offsets, target, i1, mid)
        }
    }
}

/// A polyline through a list of points, measured by arc length: the value at
/// a fraction `t` of the total length lies on the span that contains that
/// arc-length offset, interpolated within it. Spans of zero length collapse
/// to their later point.
pub struct Poly<T: Mix + Distance> {
    pub points: Vec<T>,
    pub offsets: Vec<u64>,
}

impl<T: Mix + Distance> Poly<T> {
    pub open spec fn wf(&self) -> bool {
        &&& 1 <= self.points.len()
        &&& self.offsets.len() == self.points.len()
        &&& forall|i: int|
            0 <= i < self.offsets.len() ==> #[trigger] self.offsets[i] as nat == spec_offset_at(
                self.points@,
                i,
            )
    }

    /// The total measured arc length.
    pub open spec fn spec_length(&self) -> nat {
        self.offsets[self.offsets.len() - 1] as nat
    }

    /// The value at fraction `t` of the total arc length.
    pub open spec fn spec_value_at(&self, t: Fraction) -> T
        recommends
            self.wf(),
            t.wf(),
    {
        if self.points.len() == 1 {
            self.points[0]
        } else {
            let target = scale_frac(self.spec_length(), t);
            let r = spec_bisect(self.offsets@, target, 0, self.offsets.len() - 1);
            let o1 = self.offsets[r.0] as nat;
            let o2 = self.offsets[r.1] as nat;
            if o1 == o2 {
                self.points[r.1]
            } else {
                self.points[r.0].spec_mix(
                    self.points[r.1],
                    Fraction { num: (target - o1) as u64, den: (o2 - o1) as u64 },
                )
            }
        }
    }

    /// Measure a point list: the cumulative distances between consecutive
    /// points become the offset table.
    pub fn new(points: Vec<T>) -> (r: Poly<T>)
        requires
            1 <= points.len(),
        ensures
            r.points == points,
            r.wf(),
    {
        let mut offsets: Vec<u64> = Vec::new();
        offsets.push(0);
        let mut i: usize = 1;
        while i < points.len()
            invariant
                1 <= i <= points.len(),
                offsets.len() == i,
                forall|j: int|
                    0 <= j < i ==> #[trigger] offsets[j] as nat == spec_offset_at(points@, j),
            decreases points.len() - i,
        {
            let d = points[i - 1].distance(points[i]);
            let prev = offsets[i - 1];
            let next: u64 = if prev > u64::MAX - d {
                u64::MAX
            } else {
                prev + d
            };
            offsets.push(next);
            i = i + 1;
        }
        Poly { points, offsets }
    }

    /// The value at fraction `t` of the total arc length, by binary search
    /// over the offset table.
    pub fn value_at(&self, t: Fraction) -> (r: T)
        requires
            self.wf(),
            t.wf(),
        ensures
            r == self.spec_value_at(t),
    {
        if self.points.len() == 1 {
            return self.points[0];
        }
        let last: usize = self.offsets.len() - 1;
        let total: u64 = self.offsets[last];
        let target: u64 = crate::mix::frac_scale(total, t);
        let ghost tgt = target as nat;
        let mut i1: usize = 0;
        let mut i2: usize = last;
        proof {
            lemma_scale_frac_bound(total as nat, t);
        }
        while i2 - i1 > 1
            invariant
                self.wf(),
                2 <= self.offsets.len(),
                0 <= i1 < i2 <= self.offsets.len() - 1,
                tgt == target as nat,
                i1 == 0 || self.offsets[i1 as int] < tgt,
                tgt <= self.offsets[i2 as int],
                spec_bisect(self.offsets@, tgt, i1 as int, i2 as int) == spec_bisect(
                    self.offsets@,
                    tgt,
                    0,
                    self.offsets.len() - 1,
                ),
            decreases i2 - i1,
        {
            let mid: usize = i1 + (i2 - i1) / 2;
            proof {
                assert(i1 < mid < i2);
                assert(spec_bisect(self.offsets@, tgt, i1 as int, i2 as int) == (
                if tgt > self.offsets@[mid as int] {
                    spec_bisect(self.offsets@, tgt, mid as int, i2 as int)
                } else {
                    spec_bisect(self.offsets@, tgt, i1 as int, mid as int)
                }));
            }
            if target > self.offsets[mid] {
                i1 = mid;
            } else {
                i2 = mid;
            }
        }
        let o1: u64 = self.offsets[i1];
        let o2: u64 = self.offsets[i2];
        proof {
            lemma_offsets_sorted(self);
        }
        if o1 == o2 {
            self.points[i2]
        } else {
            let f = Fraction { num: target - o1, den: o2 - o1 };
            self.points[i1].mix(self.points[i2], f)
        }
    }
}

/// Offset tables are sorted: a later cumulative arc length is never smaller.
pub proof fn lemma_offsets_sorted<T: Mix + Distance>(p: &Poly<T>)
    requires
        p.wf(),
    ensures
        forall|i: int, j: int|
            0 <= i <= j < p.offsets.len() ==> #[trigger] p.offsets[i] <= #[trigger] p.offsets[j],
{
    assert forall|i: int, j: int|
        0 <= i <= j < p.offsets.len() implies #[trigger] p.offsets[i] <= #[trigger] p.offsets[j] by {
        lemma_offset_at_monotone(p.points@, i, j);
    }
}

/// Cumulative arc length is monotone in the index.
pub proof fn lemma_offset_at_monotone<T: Mix + Distance>(points: Seq<T>, i: int, j: int)
    requires
        0 <= i <= j < points.len(),
    ensures
        spec_offset_at(points, i) <= spec_offset_at(points, j),
    decreases j - i,
{
    if i < j {
        lemma_offset_at_monotone(points, i, j - 1);
    }
}

//----------------------------------------------------------------
// PolyTransition

/// A transition that travels through a polyline at constant arc-length
/// speed, with an easing curve shaping the progress fraction.
pub struct PolyTransition<T: Mix + Distance> {
    pub poly: Poly<T>,
    pub duration: Duration,
    pub easing: Easing,
}

impl<T: Mix + Distance> PolyTransition<T> {
    pub fn new(points: Vec<T>, duration: Duration, easing: Easing) -> (r: Self)
        requires
            1 <= points.len(),
        ensures
            r.poly.points == points,
            r.poly.wf(),
            r.duration == duration,
            r.easing == easing,
    {
        PolyTransition { poly: Poly::new(points), duration, easing }
    }
}

impl<T: Mix + Distance> Transition<T> for PolyTransition<T> {
    open spec fn wf(&self) -> bool {
        self.poly.wf() && self.easing.wf()
    }

    open spec fn spec_infinite(&self) -> bool {
        false
    }

    open spec fn spec_duration(&self) -> nat {
        self.duration.ticks as nat
    }

    open spec fn spec_get(&self, offset: nat) -> T {
        self.poly.spec_value_at(
            self.easing.spec_ease(clamp_frac(offset, self.duration.ticks as nat)),
        )
    }

    fn get(&self, offset: Duration) -> (r: T) {
        let t = clamp_fraction(offset, self.duration);
        let e = self.easing.ease(t);
        self.poly.value_at(e)
    }

    fn duration(&self) -> (d: Duration) {
        self.duration
    }

    fn is_infinite(&self) -> (r: bool) {
        false
    }

    proof fn lemma_end_clamp(&self, o1: nat, o2: nat) {
    }
}

/// Continue a transition along a polyline: the new leg starts at the first
/// transition's end value, then travels through the given points at constant
/// arc-length speed under the easing curve.
pub fn poly_to<T: Mix + Distance, S: Transition<T>>(
    first: S,
    points: Vec<T>,
    duration: Duration,
    easing: Easing,
) -> (r: SequentialTransition<T, S, PolyTransition<T>>)
    requires
        first.wf(),
        !first.spec_infinite(),
    ensures
        r.t1 == first,
        r.t2.poly.wf(),
        r.t2.poly.points@ == seq![first.spec_get(first.spec_duration())] + points@,
        r.t2.duration == duration,
        r.t2.easing == easing,
{
    let end_value = first.end_value();
    let mut all_points: Vec<T> = Vec::new();
    all_points.push(end_value);
    let mut i: usize = 0;
    while i < points.len()
        invariant
            i <= points.len(),
            all_points@ == seq![end_value] + points@.subrange(0, i as int),
        decreases points.len() - i,
    {
        all_points.push(points[i]);
        i = i + 1;
        proof {
            assert(points@.subrange(0, i as int) == points@.subrange(0, i - 1) + seq![
                points@[i - 1],
            ]);
        }
    }
    proof {
        assert(points@.subrange(0, points@.len() as int) == points@);
    }
    SequentialTransition { t1: first, t2: PolyTransition::new(all_points, duration, easing), phantom: PhantomData }
}

} // verus!
