use vstd::prelude::*;
use crate::distance::Distance;
use crate::fraction::Fraction;
use crate::mix::Mix;
use crate::path::curve::Curve;
use crate::poly::sat_add_u64;

verus! {

/// A single point: a Bezier segment of degree zero.
pub struct Bezier0<T: Mix + Distance>(pub T);

/// A straight segment: a Bezier segment of degree one.
pub struct Bezier1<T: Mix + Distance>(pub T, pub T);

/// A quadratic Bezier segment: two anchors and one control point.
pub struct Bezier2<T: Mix + Distance>(pub T, pub T, pub T);

/// A cubic Bezier segment: two anchors and two control points.
pub struct Bezier3<T: Mix + Distance>(pub T, pub T, pub T, pub T);

impl<T: Mix + Distance> Bezier0<T> {
    pub fn new(p: T) -> (r: Self)
        ensures
            r == (Bezier0(p)),
    {
        Bezier0(p)
    }
}

impl<T: Mix + Distance> Bezier1<T> {
    pub fn new(p0: T, p1: T) -> (r: Self)
        ensures
            r == (Bezier1(p0, p1)),
    {
        Bezier1(p0, p1)
    }
}

impl<T: Mix + Distance> Bezier2<T> {
    pub fn new(p0: T, p1: T, p2: T) -> (r: Self)
        ensures
            r == (Bezier2(p0, p1, p2)),
    {
        Bezier2(p0, p1, p2)
    }
}

impl<T: Mix + Distance> Bezier3<T> {
    pub fn new(p0: T, p1: T, p2: T, p3: T) -> (r: Self)
        ensures
            r == (Bezier3(p0, p1, p2, p3)),
    {
        Bezier3(p0, p1, p2, p3)
    }
}

impl<T: Mix + Distance> Curve<T> for Bezier0<T> {
    open spec fn spec_value_at(&self, t: Fraction) -> T {
        self.0
    }

    open spec fn spec_estimate(&self) -> nat {
        0
    }

    fn value_at(&self, t: Fraction) -> (r: T) {
        self.0
    }

    fn estimate_length(&self) -> (r: u64) {
        0
    }
}

impl<T: Mix + Distance> Curve<T> for Bezier1<T> {
    open spec fn spec_value_at(&self, t: Fraction) -> T {
        self.0.spec_mix(self.1, t)
    }

    open spec fn spec_estimate(&self) -> nat {
        self.0.spec_distance(self.1)
    }

    fn value_at(&self, t: Fraction) -> (r: T) {
        self.0.mix(self.1, t)
    }

    fn estimate_length(&self) -> (r: u64) {
        self.0.distance(self.1)
    }
}

impl<T: Mix + Distance> Curve<T> for Bezier2<T> {
    open spec fn spec_value_at(&self, t: Fraction) -> T {
        let v01 = self.0.spec_mix(self.1, t);
        let v12 = self.1.spec_mix(self.2, t);
        v01.spec_mix(v12, t)
    }

    open spec fn spec_estimate(&self) -> nat {
        let polygon = sat_add_u64(self.0.spec_distance(self.1), self.1.spec_distance(self.2));
        let chord = self.0.spec_distance(self.2);
        sat_add_u64(polygon, chord) / 2
    }

    fn value_at(&self, t: Fraction) -> (r: T) {
        let v01 = self.0.mix(self.1, t);
        let v12 = self.1.mix(self.2, t);
        v01.mix(v12, t)
    }

    fn estimate_length(&self) -> (r: u64) {
        let d01 = self.0.distance(self.1);
        let d12 = self.1.distance(self.2);
        let polygon: u64 = if d01 > u64::MAX - d12 {
            u64::MAX
        } else {
            d01 + d12
        };
        let chord = self.0.distance(self.2);
        let both: u64 = if polygon > u64::MAX - chord {
            u64::MAX
        } else {
            polygon + chord
        };
        both / 2
    }
}

impl<T: Mix + Distance> Curve<T> for Bezier3<T> {
    open spec fn spec_value_at(&self, t: Fraction) -> T {
        let v01 = self.0.spec_mix(self.1, t);
        let v12 = self.1.spec_mix(self.2, t);
        let v23 = self.2.spec_mix(self.3, t);
        let v012 = v01.spec_mix(v12, t);
        let v123 = v12.spec_mix(v23, t);
        v012.spec_mix(v123, t)
    }

    open spec fn spec_estimate(&self) -> nat {
        let polygon = sat_add_u64(
            sat_add_u64(self.0.spec_distance(self.1), self.1.spec_distance(self.2)),
            self.2.spec_distance(self.3),
        );
        let chord = self.0.spec_distance(self.3);
        sat_add_u64(polygon, chord) / 2
    }

    fn value_at(&self, t: Fraction) -> (r: T) {
        let v01 = self.0.mix(self.1, t);
        let v12 = self.1.mix(self.2, t);
        let v23 = self.2.mix(self.3, t);
        let v012 = v01.mix(v12, t);
        let v123 = v12.mix(v23, t);
        v012.mix(v123, t)
    }

    fn estimate_length(&self) -> (r: u64) {
        let d01 = self.0.distance(self.1);
        let d12 = self.1.distance(self.2);
        let d23 = self.2.distance(self.3);
        let p1: u64 = if d01 > u64::MAX - d12 {
            u64::MAX
        } else {
            d01 + d12
        };
        let polygon: u64 = if p1 > u64::MAX - d23 {
            u64::MAX
        } else {
            p1 + d23
        };
        let chord = self.0.distance(self.3);
        let both: u64 = if polygon > u64::MAX - chord {
            u64::MAX
        } else {
            polygon + chord
        };
        both / 2
    }
}

/// A Bezier segment of any supported degree.
pub enum Bezier<T: Mix + Distance> {
    Bezier0(Bezier0<T>),
    Bezier1(Bezier1<T>),
    Bezier2(Bezier2<T>),
    Bezier3(Bezier3<T>),
}

impl<T: Mix + Distance> Curve<T> for Bezier<T> {
    open spec fn spec_value_at(&self, t: Fraction) -> T {
        match self {
            Bezier::Bezier0(b) => b.spec_value_at(t),
            Bezier::Bezier1(b) => b.spec_value_at(t),
            Bezier::Bezier2(b) => b.spec_value_at(t),
            Bezier::Bezier3(b) => b.spec_value_at(t),
        }
    }

    open spec fn spec_estimate(&self) -> nat {
        match self {
            Bezier::Bezier0(b) => b.spec_estimate(),
            Bezier::Bezier1(b) => b.spec_estimate(),
            Bezier::Bezier2(b) => b.spec_estimate(),
            Bezier::Bezier3(b) => b.spec_estimate(),
        }
    }

    fn value_at(&self, t: Fraction) -> (r: T) {
        match self {
            Bezier::Bezier0(b) => b.value_at(t),
            Bezier::Bezier1(b) => b.value_at(t),
            Bezier::Bezier2(b) => b.value_at(t),
            Bezier::Bezier3(b) => b.value_at(t),
        }
    }

    fn estimate_length(&self) -> (r: u64) {
        match self {
            Bezier::Bezier0(b) => b.estimate_length(),
            Bezier::Bezier1(b) => b.estimate_length(),
            Bezier::Bezier2(b) => b.estimate_length(),
            Bezier::Bezier3(b) => b.estimate_length(),
        }
    }
}

/// At any zero position a Bezier segment stands on its first control point:
/// every blend in the de Casteljau chain collapses to its first operand.
pub proof fn lemma_bezier_value_at_zero<T: Mix + Distance>(b: &Bezier<T>, t: Fraction)
    requires
        t.wf(),
        t.is_zero(),
    ensures
        b.spec_value_at(t) == (match b {
            Bezier::Bezier0(s) => s.0,
            Bezier::Bezier1(s) => s.0,
            Bezier::Bezier2(s) => s.0,
            Bezier::Bezier3(s) => s.0,
        }),
{
    match b {
        Bezier::Bezier0(s) => {},
        Bezier::Bezier1(s) => {
            s.0.lemma_mix_zero(s.1, t);
        },
        Bezier::Bezier2(s) => {
            s.0.lemma_mix_zero(s.1, t);
            s.1.lemma_mix_zero(s.2, t);
            s.0.spec_mix(s.1, t).lemma_mix_zero(s.1.spec_mix(s.2, t), t);
        },
        Bezier::Bezier3(s) => {
            s.0.lemma_mix_zero(s.1, t);
            s.1.lemma_mix_zero(s.2, t);
            s.2.lemma_mix_zero(s.3, t);
            let v01 = s.0.spec_mix(s.1, t);
            let v12 = s.1.spec_mix(s.2, t);
            let v23 = s.2.spec_mix(s.3, t);
            v01.lemma_mix_zero(v12, t);
            v12.lemma_mix_zero(v23, t);
            v01.spec_mix(v12, t).lemma_mix_zero(v12.spec_mix(v23, t), t);
        },
    }
}

} // verus!
