use vstd::prelude::*;
use crate::distance::Distance;
use crate::mix::Mix;
use crate::path::bezier::{Bezier, Bezier0, Bezier1, Bezier2, Bezier3};
use crate::path::curve::Curve;
use crate::path::path_struct::Path;
use crate::smooth_array::TABLE_MAX;

verus! {

/// An accumulating builder of Bezier segments: each new segment is anchored
/// at the previous segment's end point, so the path is connected by
/// construction.
pub struct PathBuilder<T: Mix + Distance> {
    pub segments: Vec<Bezier<T>>,
}

impl<T: Mix + Distance> PathBuilder<T> {
    pub open spec fn wf(&self) -> bool {
        1 <= self.segments.len()
    }

    /// The point where the last segment ends.
    pub open spec fn spec_last_point(&self) -> T
        recommends
            self.wf(),
    {
        self.segments[self.segments.len() - 1].spec_value_at(
            crate::fraction::Fraction { num: 1u64, den: 1u64 },
        )
    }

    fn last_point(&self) -> (r: T)
        requires
            self.wf(),
        ensures
            r == self.spec_last_point(),
    {
        self.segments[self.segments.len() - 1].last_point()
    }

    /// Start a path at the given point.
    pub fn new(start_point: T) -> (r: Self)
        ensures
            r.wf(),
            r.segments.len() == 1,
            r.segments[0] == (Bezier::<T>::Bezier0(Bezier0(start_point))),
    {
        let mut segments: Vec<Bezier<T>> = Vec::new();
        segments.push(Bezier::Bezier0(Bezier0(start_point)));
        PathBuilder { segments }
    }

    /// Start a path at the given point, with room reserved for `capacity`
    /// segments.
    pub fn with_capacity(start_point: T, capacity: usize) -> (r: Self)
        ensures
            r.wf(),
            r.segments.len() == 1,
            r.segments[0] == (Bezier::<T>::Bezier0(Bezier0(start_point))),
    {
        let mut segments: Vec<Bezier<T>> = Vec::with_capacity(capacity);
        segments.push(Bezier::Bezier0(Bezier0(start_point)));
        PathBuilder { segments }
    }

    /// Continue with a straight segment to `destination`.
    pub fn line_to(self, destination: T) -> (r: Self)
        requires
            self.wf(),
        ensures
            r.wf(),
            r.segments@ == self.segments@.push(
                Bezier::Bezier1(Bezier1(self.spec_last_point(), destination)),
            ),
    {
        let p0 = self.last_point();
        let mut segments = self.segments;
        segments.push(Bezier::Bezier1(Bezier1(p0, destination)));
        PathBuilder { segments }
    }

    /// Continue with a quadratic segment through one control point.
    pub fn quad_to(self, control: T, destination: T) -> (r: Self)
        requires
            self.wf(),
        ensures
            r.wf(),
            r.segments@ == self.segments@.push(
                Bezier::Bezier2(Bezier2(self.spec_last_point(), control, destination)),
            ),
    {
        let p0 = self.last_point();
        let mut segments = self.segments;
        segments.push(Bezier::Bezier2(Bezier2(p0, control, destination)));
        PathBuilder { segments }
    }

    /// Continue with a cubic segment through two control points.
    pub fn cubic_to(self, control1: T, control2: T, destination: T) -> (r: Self)
        requires
            self.wf(),
        ensures
            r.wf(),
            r.segments@ == self.segments@.push(
                Bezier::Bezier3(Bezier3(self.spec_last_point(), control1, control2, destination)),
            ),
    {
        let p0 = self.last_point();
        let mut segments = self.segments;
        segments.push(Bezier::Bezier3(Bezier3(p0, control1, control2, destination)));
        PathBuilder { segments }
    }

    /// Build the path, with the given sampling effort and lookup table size.
    pub fn build(self, steps_count: usize, table_size: usize) -> (r: Path<T>)
        requires
            self.wf(),
            self.segments.len() <= TABLE_MAX,
            1 <= steps_count <= 65536,
            2 <= table_size <= TABLE_MAX,
        ensures
            r.segments == self.segments,
            r.wf(),
            r.indexes.data[0] == 0,
            forall|slot: int|
                0 <= slot < r.indexes.data.len() ==> #[trigger] r.indexes.data[slot] as int <= (
                self.segments.len() as int) * crate::smooth_array::FIXED_ONE,
            (forall|i: int|
                0 <= i < self.segments.len() ==> #[trigger] self.segments[i].spec_estimate()
                == 0) ==> (forall|slot: int|
                0 <= slot < r.indexes.data.len() ==> #[trigger] r.indexes.data[slot] == 0),
            ({
                let smp = crate::path::path_struct::spec_samples(
                    self.segments@,
                    steps_count as int,
                    crate::path::path_struct::spec_total_estimate(
                        self.segments@,
                        self.segments.len() as int,
                    ) as int,
                    self.segments.len() as int,
                );
                &&& (crate::path::path_struct::spec_total_estimate(
                    self.segments@,
                    self.segments.len() as int,
                ) > 0 && smp.last().1 == 0 ==> forall|slot: int|
                    0 <= slot < r.indexes.data.len() ==> #[trigger] r.indexes.data[slot] == 0)
                &&& (crate::path::path_struct::spec_total_estimate(
                    self.segments@,
                    self.segments.len() as int,
                ) > 0 && smp.last().1 > 0 ==> forall|slot: int|
                    0 <= slot < r.indexes.data.len() ==> #[trigger] r.indexes.data[slot] as int
                        == (if slot == 0 {
                        0
                    } else {
                        crate::path::path_struct::spec_path_slot(
                            smp,
                            table_size as int,
                            smp.last().1,
                            slot,
                            smp.len() - 1,
                        )
                    }))
            }),
    {
        Path::new(self.segments, steps_count, table_size)
    }
}

} // verus!
