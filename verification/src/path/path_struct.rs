use vstd::prelude::*;
use vstd::arithmetic::div_mod::{lemma_div_is_ordered, lemma_fundamental_div_mod};
use vstd::arithmetic::mul::{
    lemma_mul_inequality, lemma_mul_is_distributive_sub_other_way, lemma_mul_strictly_positive,
};
use crate::distance::Distance;
use crate::fraction::Fraction;
use crate::mix::{lemma_mul_div_le, Mix};
use crate::path::bezier::Bezier;
use crate::path::curve::Curve;
use crate::smooth_array::{SmoothArray, FIXED_ONE, TABLE_MAX, VALUE_MAX};
use crate::time::lemma_u64_product_fits;

verus! {

/// The saturating sum of the first `i` segments' length estimates.
pub open spec fn spec_total_estimate<T: Mix + Distance>(segments: Seq<Bezier<T>>, i: int) -> nat
    decreases i,
{
    if i <= 0 {
        0
    } else {
        crate::poly::sat_add_u64(
            spec_total_estimate(segments, i - 1),
            segments[i - 1].spec_estimate(),
        )
    }
}

/// How many samples a segment receives: its share of the sampling effort,
/// proportional to its estimated length, and at least one.
pub open spec fn spec_sample_count(steps: int, e: int, total: int) -> int
    recommends
        1 <= total,
{
    let w = steps * e / total;
    (if w > steps {
        steps
    } else {
        w
    }) + 1
}

/// The samples one segment contributes: for each `j` up to `n`, the point at
/// parameter `j / n`, the running arc length grown by the distance from the
/// previous sampled point, and the continuous curve parameter.
pub open spec fn spec_seg_samples<T: Mix + Distance>(
    seg: Bezier<T>,
    si: int,
    n: int,
    from_pt: T,
    from_arc: nat,
    j: int,
) -> Seq<(int, nat, T)>
    decreases j,
{
    if j <= 0 {
        Seq::empty()
    } else {
        let prefix = spec_seg_samples(seg, si, n, from_pt, from_arc, j - 1);
        let prev_pt = if j == 1 {
            from_pt
        } else {
            prefix.last().2
        };
        let prev_arc = if j == 1 {
            from_arc
        } else {
            prefix.last().1
        };
        let pt = seg.spec_value_at(Fraction { num: j as u64, den: n as u64 });
        let arc = crate::poly::sat_add_u64(prev_arc, prev_pt.spec_distance(pt));
        let param = si * FIXED_ONE + j * FIXED_ONE / n;
        prefix.push((param, arc, pt))
    }
}

/// The full sample sequence of the first `i` segments: the path's origin,
/// then each positive-estimate segment's samples in order; zero-estimate
/// segments contribute none.
pub open spec fn spec_samples<T: Mix + Distance>(
    segments: Seq<Bezier<T>>,
    steps: int,
    total: int,
    i: int,
) -> Seq<(int, nat, T)>
    recommends
        1 <= segments.len(),
    decreases i,
{
    if i <= 0 {
        seq![(0int, 0 as nat, segments[0].spec_value_at(Fraction { num: 0u64, den: 1u64 }))]
    } else {
        let prefix = spec_samples(segments, steps, total, i - 1);
        if segments[i - 1].spec_estimate() > 0 {
            let n = spec_sample_count(steps, segments[i - 1].spec_estimate() as int, total);
            prefix + spec_seg_samples(
                segments[i - 1],
                i - 1,
                n,
                prefix.last().2,
                prefix.last().1,
                n,
            )
        } else {
            prefix
        }
    }
}

/// A segment's sample sequence has exactly one sample per parameter step.
pub proof fn lemma_seg_samples_len<T: Mix + Distance>(
    seg: Bezier<T>,
    si: int,
    n: int,
    from_pt: T,
    from_arc: nat,
    j: int,
)
    requires
        0 <= j,
    ensures
        spec_seg_samples(seg, si, n, from_pt, from_arc, j).len() == j,
    decreases j,
{
    if j > 0 {
        lemma_seg_samples_len(seg, si, n, from_pt, from_arc, j - 1);
    }
}

/// The value table slot `k` holds once the sampled spans up to sample `q`
/// are drawn: the latest drawable span that covers the slot decides its
/// value, and a slot no span covers keeps zero. A span is drawable when its
/// arc strictly advances, stays within the measured length, and its
/// parameters are in range.
pub open spec fn spec_path_slot<T: Mix + Distance>(
    smp: Seq<(int, nat, T)>,
    table_size: int,
    total_len: nat,
    k: int,
    q: int,
) -> int
    decreases q,
{
    if q <= 0 {
        0
    } else {
        let p1 = smp[q - 1].0;
        let a1 = smp[q - 1].1;
        let p2 = smp[q].0;
        let a2 = smp[q].1;
        if a1 < a2 && a2 <= total_len && p1 <= VALUE_MAX && p2 <= VALUE_MAX
            && SmoothArray::slot_in_span(k, table_size - 1, a1 as int, a2 as int, total_len as int) {
            crate::smooth_array::lerp_u64(
                p1 as u64,
                p2 as u64,
                k * (total_len as int) - (a1 as int) * (table_size - 1),
                (a2 - a1) * (table_size - 1),
            ) as int
        } else {
            spec_path_slot(smp, table_size, total_len, k, q - 1)
        }
    }
}

/// An arc-length-parameterized chain of Bezier segments. A lookup table maps
/// a normalized traveled distance in [0, 1] to a continuous curve parameter —
/// whole segments plus a position inside one — so that moving the query
/// linearly moves the traced point at an approximately constant speed along
/// the whole path, however unevenly the control points are spaced.
pub struct Path<T: Mix + Distance> {
    pub segments: Vec<Bezier<T>>,
    pub indexes: SmoothArray,
}

impl<T: Mix + Distance> Path<T> {
    pub open spec fn wf(&self) -> bool {
        &&& 1 <= self.segments.len() <= TABLE_MAX
        &&& self.indexes.wf()
    }

    /// The point reached after traveling the fraction `u` of the path's
    /// length: the table gives a continuous curve parameter, whose whole
    /// part picks the segment and whose remainder is the position inside it.
    pub open spec fn spec_value_at(&self, u: Fraction) -> T
        recommends
            self.wf(),
            u.wf(),
    {
        let s = FIXED_ONE as int;
        let p = self.indexes.spec_value_at(u) as int;
        let nseg = self.segments.len() as int;
        let seg = if p / s < nseg - 1 {
            p / s
        } else {
            nseg - 1
        };
        let rem = p - seg * s;
        let tn = if rem > s {
            s
        } else {
            rem
        };
        self.segments[seg].spec_value_at(Fraction { num: tn as u64, den: FIXED_ONE })
    }

    /// The point reached after traveling the fraction `u` of the path's
    /// length.
    pub fn value_at(&self, u: Fraction) -> (r: T)
        requires
            self.wf(),
            u.wf(),
        ensures
            r == self.spec_value_at(u),
    {
        let s: u64 = FIXED_ONE;
        let p: u64 = self.indexes.value_at(u);
        let q: u64 = p / s;
        let nseg: usize = self.segments.len();
        proof {
            lemma_div_is_ordered(p as int, VALUE_MAX as int, s as int);
            assert(VALUE_MAX as int / (FIXED_ONE as int) == TABLE_MAX as int);
            lemma_fundamental_div_mod(p as int, s as int);
            vstd::arithmetic::div_mod::lemma_mod_division_less_than_divisor(p as int, s as int);
            if !((p as int / s as int) < nseg - 1) {
                lemma_mul_inequality(nseg - 1, p as int / s as int, s as int);
            }
        }
        let seg: usize = if (q as usize) < nseg - 1 {
            q as usize
        } else {
            nseg - 1
        };
        let rem: u64 = p - (seg as u64) * s;
        let tn: u64 = if rem > s {
            s
        } else {
            rem
        };
        self.segments[seg].value_at(Fraction { num: tn, den: s })
    }

    /// Build a path over the given segments.
    ///
    /// The build samples each segment at a density proportional to its share
    /// of the estimated total length, accumulates the sampled point-to-point
    /// distances as a running arc length, and draws the resulting
    /// (traveled-fraction, curve-parameter) pairs into the lookup table.
    /// Spans of zero measured length are skipped, and a path whose measured
    /// length is zero keeps an all-zero table: every query collapses to the
    /// path's first point. The first table slot is pinned to parameter zero,
    /// so a query at the start of the range stands on the path's origin.
    ///
    /// * `steps_count` - how many points along the path are sampled.
    /// * `table_size` - the number of lookup table slots.
    pub fn new(segments: Vec<Bezier<T>>, steps_count: usize, table_size: usize) -> (r: Path<T>)
        requires
            1 <= segments.len() <= TABLE_MAX,
            1 <= steps_count <= 65536,
            2 <= table_size <= TABLE_MAX,
        ensures
            r.segments == segments,
            r.wf(),
            r.indexes.data[0] == 0,
            forall|slot: int|
                0 <= slot < r.indexes.data.len() ==> #[trigger] r.indexes.data[slot] as int <= (
                segments.len() as int) * FIXED_ONE,
            (forall|i: int| 0 <= i < segments.len() ==> #[trigger] segments[i].spec_estimate()
                == 0) ==> (forall|slot: int|
                0 <= slot < r.indexes.data.len() ==> #[trigger] r.indexes.data[slot] == 0),
            ({
                let smp = spec_samples(
                    segments@,
                    steps_count as int,
                    spec_total_estimate(segments@, segments.len() as int) as int,
                    segments.len() as int,
                );
                &&& (spec_total_estimate(segments@, segments.len() as int) > 0 && smp.last().1
                    == 0 ==> forall|slot: int|
                    0 <= slot < r.indexes.data.len() ==> #[trigger] r.indexes.data[slot] == 0)
                &&& (spec_total_estimate(segments@, segments.len() as int) > 0 && smp.last().1
                    > 0 ==> forall|slot: int|
                    0 <= slot < r.indexes.data.len() ==> #[trigger] r.indexes.data[slot] as int
                        == (if slot == 0 {
                        0
                    } else {
                        spec_path_slot(smp, table_size as int, smp.last().1, slot, smp.len() - 1)
                    }))
            }),
    {
        let nseg: usize = segments.len();
        let mut estimates: Vec<u64> = Vec::new();
        let mut total: u64 = 0;
        let mut i: usize = 0;
        while i < nseg
            invariant
                i <= nseg,
                nseg == segments.len(),
                estimates.len() == i,
                forall|j: int|
                    0 <= j < i ==> #[trigger] estimates[j] as nat == segments[j].spec_estimate(),
                (forall|j: int| 0 <= j < i ==> #[trigger] estimates[j] == 0) ==> total == 0,
                total as nat == spec_total_estimate(segments@, i as int),
            decreases nseg - i,
        {
            let e = segments[i].estimate_length();
            let ghost old_est = estimates;
            let ghost old_total = total;
            estimates.push(e);
            total = if total > u64::MAX - e {
                u64::MAX
            } else {
                total + e
            };
            proof {
                if forall|j: int| 0 <= j < i + 1 ==> #[trigger] estimates[j] == 0 {
                    assert(estimates[i as int] == 0);
                    assert forall|j: int| 0 <= j < i implies #[trigger] old_est[j] == 0 by {
                        assert(estimates[j] == old_est[j]);
                    }
                    assert(old_total == 0);
                    assert(total == 0);
                }
            }
            i = i + 1;
        }
        let mut indexes = SmoothArray::new(table_size);
        if total == 0 {
            return Path { segments, indexes };
        }
        let mut samples: Vec<(u64, u64)> = Vec::new();
        samples.push((0, 0));
        let mut prev: T = segments[0].first_point();
        let mut arc: u64 = 0;
        let mut i2: usize = 0;
        proof {
            assert(spec_samples(segments@, steps_count as int, total as int, 0).len() == 1);
        }
        while i2 < nseg
            invariant
                i2 <= nseg,
                nseg == segments.len(),
                1 <= nseg <= TABLE_MAX,
                estimates.len() == nseg,
                1 <= steps_count <= 65536,
                1 <= total,
                1 <= samples.len(),
                forall|k: int|
                    0 <= k < samples.len() ==> #[trigger] samples[k].0 as int <= (
                    nseg as int) * FIXED_ONE,
                forall|j: int|
                    0 <= j < nseg ==> #[trigger] estimates[j] as nat == segments@[j].spec_estimate(),
                samples@.len() == spec_samples(
                    segments@,
                    steps_count as int,
                    total as int,
                    i2 as int,
                ).len(),
                forall|q: int| #![trigger samples@[q]]
                    0 <= q < samples@.len() ==> samples@[q].0 as int == spec_samples(
                        segments@,
                        steps_count as int,
                        total as int,
                        i2 as int,
                    )[q].0 && samples@[q].1 as nat == spec_samples(
                        segments@,
                        steps_count as int,
                        total as int,
                        i2 as int,
                    )[q].1,
                prev == spec_samples(segments@, steps_count as int, total as int, i2 as int).last().2,
                arc as nat == spec_samples(
                    segments@,
                    steps_count as int,
                    total as int,
                    i2 as int,
                ).last().1,
            decreases nseg - i2,
        {
            let e = estimates[i2];
            let ghost base = spec_samples(segments@, steps_count as int, total as int, i2 as int);
            if e > 0 {
                proof {
                    lemma_u64_product_fits(steps_count as int, e as int);
                }
                let wide: u128 = (steps_count as u128) * (e as u128) / (total as u128);
                let n_i: u64 = if wide > (steps_count as u128) {
                    steps_count as u64
                } else {
                    wide as u64
                } + 1;
                let mut j: u64 = 1;
                while j <= n_i
                    invariant
                        1 <= j <= n_i + 1,
                        1 <= n_i <= 65537,
                        i2 < nseg,
                        nseg == segments.len(),
                        1 <= nseg <= TABLE_MAX,
                        1 <= samples.len(),
                        forall|k: int|
                            0 <= k < samples.len() ==> #[trigger] samples[k].0 as int <= (
                            nseg as int) * FIXED_ONE,
                        base == spec_samples(
                            segments@,
                            steps_count as int,
                            total as int,
                            i2 as int,
                        ),
                        n_i as int == spec_sample_count(
                            steps_count as int,
                            segments@[i2 as int].spec_estimate() as int,
                            total as int,
                        ),
                        segments@[i2 as int].spec_estimate() > 0,
                        samples@.len() == base.len() + (j - 1),
                        forall|q: int| #![trigger samples@[q]]
                            0 <= q < samples@.len() ==> samples@[q].0 as int == (base
                                + spec_seg_samples(
                                segments@[i2 as int],
                                i2 as int,
                                n_i as int,
                                base.last().2,
                                base.last().1,
                                j - 1,
                            ))[q].0 && samples@[q].1 as nat == (base + spec_seg_samples(
                                segments@[i2 as int],
                                i2 as int,
                                n_i as int,
                                base.last().2,
                                base.last().1,
                                j - 1,
                            ))[q].1,
                        prev == (if j == 1 {
                            base.last().2
                        } else {
                            spec_seg_samples(
                                segments@[i2 as int],
                                i2 as int,
                                n_i as int,
                                base.last().2,
                                base.last().1,
                                j - 1,
                            ).last().2
                        }),
                        arc as nat == (if j == 1 {
                            base.last().1
                        } else {
                            spec_seg_samples(
                                segments@[i2 as int],
                                i2 as int,
                                n_i as int,
                                base.last().2,
                                base.last().1,
                                j - 1,
                            ).last().1
                        }),
                    decreases n_i + 1 - j,
                {
                    let ghost sseg_old = spec_seg_samples(
                        segments@[i2 as int],
                        i2 as int,
                        n_i as int,
                        base.last().2,
                        base.last().1,
                        j - 1,
                    );
                    let t = Fraction { num: j, den: n_i };
                    let pt = segments[i2].value_at(t);
                    let d = prev.distance(pt);
                    arc = if arc > u64::MAX - d {
                        u64::MAX
                    } else {
                        arc + d
                    };
                    proof {
                        lemma_u64_product_fits(j as int, FIXED_ONE as int);
                        lemma_mul_div_le(FIXED_ONE as nat, j as nat, n_i as nat);
                        assert(FIXED_ONE as int * j == j as int * FIXED_ONE);
                    }
                    let local: u64 = ((j as u128) * (FIXED_ONE as u128) / (n_i as u128)) as u64;
                    let param: u64 = (i2 as u64) * FIXED_ONE + local;
                    let ghost samples_old = samples@;
                    samples.push((param, arc));
                    prev = pt;
                    proof {
                        let sseg_new = spec_seg_samples(
                            segments@[i2 as int],
                            i2 as int,
                            n_i as int,
                            base.last().2,
                            base.last().1,
                            j as int,
                        );
                        lemma_seg_samples_len(
                            segments@[i2 as int],
                            i2 as int,
                            n_i as int,
                            base.last().2,
                            base.last().1,
                            j as int,
                        );
                        lemma_seg_samples_len(
                            segments@[i2 as int],
                            i2 as int,
                            n_i as int,
                            base.last().2,
                            base.last().1,
                            j - 1,
                        );
                        assert(sseg_new == sseg_old.push(sseg_new.last()));
                        assert(sseg_new.last().0 == param as int);
                        assert(sseg_new.last().1 == arc as nat);
                        assert(sseg_new.last().2 == pt);
                        assert(samples@ == samples_old.push((param, arc)));
                        assert forall|q: int|
                            0 <= q < samples@.len() implies #[trigger] samples@[q].0 as int == (
                            base + sseg_new)[q].0 && samples@[q].1 as nat == (base
                            + sseg_new)[q].1 by {
                            if q < samples@.len() - 1 {
                                assert(samples@[q] == samples_old[q]);
                                assert(samples_old[q].0 as int == (base + sseg_old)[q].0
                                    && samples_old[q].1 as nat == (base + sseg_old)[q].1);
                                assert((base + sseg_new)[q] == (base + sseg_old)[q]);
                            } else {
                                assert(samples@[q] == (param, arc));
                                assert((base + sseg_new)[q] == sseg_new.last());
                            }
                        }
                    }
                    j = j + 1;
                }
                proof {
                    lemma_seg_samples_len(
                        segments@[i2 as int],
                        i2 as int,
                        n_i as int,
                        base.last().2,
                        base.last().1,
                        n_i as int,
                    );
                    assert(spec_samples(
                        segments@,
                        steps_count as int,
                        total as int,
                        i2 + 1,
                    ) == base + spec_seg_samples(
                        segments@[i2 as int],
                        i2 as int,
                        n_i as int,
                        base.last().2,
                        base.last().1,
                        n_i as int,
                    ));
                    assert((base + spec_seg_samples(
                        segments@[i2 as int],
                        i2 as int,
                        n_i as int,
                        base.last().2,
                        base.last().1,
                        n_i as int,
                    )).last() == spec_seg_samples(
                        segments@[i2 as int],
                        i2 as int,
                        n_i as int,
                        base.last().2,
                        base.last().1,
                        n_i as int,
                    ).last());
                }
            } else {
                proof {
                    assert(spec_samples(segments@, steps_count as int, total as int, i2 + 1)
                        == base);
                }
            }
            i2 = i2 + 1;
        }
        let total_len: u64 = arc;
        if total_len == 0 {
            return Path { segments, indexes };
        }
        let ghost smp = spec_samples(segments@, steps_count as int, total as int, nseg as int);
        let mut k: usize = 0;
        while k < samples.len() - 1
            invariant
                indexes.wf(),
                indexes.data.len() == table_size,
                2 <= table_size,
                1 <= samples.len(),
                k <= samples.len(),
                1 <= nseg <= TABLE_MAX,
                forall|q: int|
                    0 <= q < samples.len() ==> #[trigger] samples[q].0 as int <= (
                    nseg as int) * FIXED_ONE,
                forall|slot: int|
                    0 <= slot < indexes.data.len() ==> #[trigger] indexes.data[slot] as int <= (
                    nseg as int) * FIXED_ONE,
                smp == spec_samples(segments@, steps_count as int, total as int, nseg as int),
                samples@.len() == smp.len(),
                forall|q: int| #![trigger samples@[q]]
                    0 <= q < samples@.len() ==> samples@[q].0 as int == smp[q].0 && samples@[q].1
                        as nat == smp[q].1,
                total_len as nat == smp.last().1,
                1 <= total_len,
                forall|slot: int|
                    0 <= slot < indexes.data.len() ==> #[trigger] indexes.data[slot] as int
                        == spec_path_slot(
                        smp,
                        table_size as int,
                        total_len as nat,
                        slot,
                        k as int,
                    ),
            decreases samples.len() - k,
        {
            let (p1, a1) = samples[k];
            let (p2, a2) = samples[k + 1];
            if a1 < a2 && a2 <= total_len && p1 <= VALUE_MAX && p2 <= VALUE_MAX {
                indexes.line(a1, p1, a2, p2, total_len);
                proof {
                    let last = table_size - 1;
                    assert forall|slot: int|
                        0 <= slot < indexes.data.len() implies #[trigger] indexes.data[slot]
                        as int <= (nseg as int) * FIXED_ONE by {
                        if SmoothArray::slot_in_span(
                            slot,
                            last as int,
                            a1 as int,
                            a2 as int,
                            total_len as int,
                        ) {
                            lemma_mul_is_distributive_sub_other_way(
                                last as int,
                                a2 as int,
                                a1 as int,
                            );
                            lemma_mul_strictly_positive((a2 - a1) as int, last as int);
                            crate::smooth_array::lemma_lerp_le(
                                p1,
                                p2,
                                slot * (total_len as int) - (a1 as int) * (last as int),
                                ((a2 - a1) as int) * (last as int),
                            );
                        }
                    }
                    assert forall|slot: int|
                        0 <= slot < indexes.data.len() implies #[trigger] indexes.data[slot]
                        as int == spec_path_slot(
                        smp,
                        table_size as int,
                        total_len as nat,
                        slot,
                        k + 1,
                    ) by {
                        if SmoothArray::slot_in_span(
                            slot,
                            table_size - 1,
                            a1 as int,
                            a2 as int,
                            total_len as int,
                        ) {
                            assert(indexes.data[slot] == SmoothArray::spec_span_value(
                                slot,
                                table_size - 1,
                                a1,
                                p1,
                                a2,
                                p2,
                                total_len,
                            ));
                        }
                    }
                }
            } else {
                proof {
                    assert forall|slot: int|
                        0 <= slot < indexes.data.len() implies #[trigger] indexes.data[slot]
                        as int == spec_path_slot(
                        smp,
                        table_size as int,
                        total_len as nat,
                        slot,
                        k + 1,
                    ) by {
                        assert(indexes.data[slot] as int == spec_path_slot(
                            smp,
                            table_size as int,
                            total_len as nat,
                            slot,
                            k as int,
                        ));
                    }
                }
            }
            k = k + 1;
        }
        indexes.data.set(0, 0);
        Path { segments, indexes }
    }
}

/// A query at the very start of the range stands on the path's origin: the
/// first table slot holds parameter zero, which evaluates the first segment
/// at its first control point.
pub proof fn lemma_path_value_at_start<T: Mix + Distance>(p: &Path<T>, u: Fraction)
    requires
        p.wf(),
        u.wf(),
        u.is_zero(),
        p.indexes.data[0] == 0,
    ensures
        p.spec_value_at(u) == (match p.segments[0] {
            Bezier::Bezier0(s) => s.0,
            Bezier::Bezier1(s) => s.0,
            Bezier::Bezier2(s) => s.0,
            Bezier::Bezier3(s) => s.0,
        }),
{
    let data = p.indexes.data;
    let last = data.len() - 1;
    let den = u.den as int;
    assert(u.num * last == 0) by (nonlinear_arith)
        requires
            u.num == 0,
    ;
    vstd::arithmetic::div_mod::lemma_div_by_multiple(0, den);
    vstd::arithmetic::div_mod::lemma_small_mod(0, u.den as nat);
    let i2 = if 0 + 1 <= last {
        1int
    } else {
        last
    };
    assert((data[i2] - data[0]) * 0 == 0) by (nonlinear_arith);
    assert(crate::smooth_array::lerp_u64(data[0], data[i2], 0, den) == 0);
    assert(p.indexes.spec_value_at(u) == 0);
    crate::path::bezier::lemma_bezier_value_at_zero(
        &p.segments[0],
        Fraction { num: 0u64, den: FIXED_ONE },
    );
}

/// A path whose lookup table is all zeros collapses: every query yields the
/// first segment's starting point. Together with the build's degenerate
/// clause, a path without measurable length answers its lone point for every
/// position.
pub proof fn lemma_zero_table_collapses<T: Mix + Distance>(p: &Path<T>, u: Fraction)
    requires
        p.wf(),
        u.wf(),
        forall|slot: int|
            0 <= slot < p.indexes.data.len() ==> #[trigger] p.indexes.data[slot] == 0,
    ensures
        p.spec_value_at(u) == (match p.segments[0] {
            Bezier::Bezier0(s) => s.0,
            Bezier::Bezier1(s) => s.0,
            Bezier::Bezier2(s) => s.0,
            Bezier::Bezier3(s) => s.0,
        }),
{
    let data = p.indexes.data;
    let last = data.len() - 1;
    let pn = u.num * last;
    let den = u.den as int;
    lemma_mul_div_le(last as nat, u.num as nat, u.den as nat);
    assert(last as int * u.num == pn) by (nonlinear_arith)
        requires
            pn == u.num * last,
    ;
    vstd::arithmetic::mul::lemma_mul_nonnegative(u.num as int, last as int);
    let i1 = pn / den;
    vstd::arithmetic::div_mod::lemma_div_pos_is_pos(pn, den);
    assert(0 <= i1 <= last);
    let i2 = if i1 + 1 <= last {
        i1 + 1
    } else {
        last
    };
    let rem = pn % den;
    assert(data[i1] == 0);
    assert(data[i2] == 0);
    assert((data[i2] - data[i1]) * rem == 0) by (nonlinear_arith)
        requires
            data[i2] == 0,
            data[i1] == 0,
    ;
    vstd::arithmetic::div_mod::lemma_div_by_multiple(0, den);
    assert(crate::smooth_array::lerp_u64(data[i1], data[i2], rem, den) == 0);
    assert(p.indexes.spec_value_at(u) == 0);
    crate::path::bezier::lemma_bezier_value_at_zero(
        &p.segments[0],
        Fraction { num: 0u64, den: FIXED_ONE },
    );
}

} // verus!
