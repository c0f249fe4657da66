use vstd::prelude::*;
use std::marker::PhantomData;
use crate::easing::Easing;
use crate::fraction::{Factor, Fraction};
use crate::mix::Mix;
use crate::time::Duration;

verus! {

/// The interpolation position reached `o` ticks into a phase of length `d`:
/// the exact fraction `o / d`, clamped at the end. A phase of zero length is
/// already at its end.
pub open spec fn clamp_frac(o: nat, d: nat) -> Fraction
    recommends
        d <= u64::MAX,
{
    if d == 0 {
        Fraction { num: 1, den: 1 }
    } else if o >= d {
        Fraction { num: d as u64, den: d as u64 }
    } else {
        Fraction { num: o as u64, den: d as u64 }
    }
}

/// The executable counterpart of [`clamp_frac`].
pub fn clamp_fraction(offset: Duration, d: Duration) -> (r: Fraction)
    ensures
        r == clamp_frac(offset.ticks as nat, d.ticks as nat),
        r.wf(),
{
    if d.ticks == 0 {
        Fraction { num: 1, den: 1 }
    } else if offset.ticks >= d.ticks {
        Fraction { num: d.ticks, den: d.ticks }
    } else {
        Fraction { num: offset.ticks, den: d.ticks }
    }
}

/// A transition: an immutable template for a value changing over time. It
/// answers two questions — the value at a tick offset from its start, and its
/// total duration (some transitions repeat forever and have none). Evaluating
/// at or past the end of a finite transition always yields the end value,
/// which every implementation proves as `lemma_end_clamp`.
pub trait Transition<T: Mix>: Sized {
    /// The internal consistency of this template: children well formed,
    /// durations within the tick range.
    spec fn wf(&self) -> bool;

    /// Whether the template repeats forever.
    spec fn spec_infinite(&self) -> bool;

    /// The total duration in ticks; meaningful only for finite templates.
    spec fn spec_duration(&self) -> nat;

    /// The value at a tick offset, as a pure function of the template.
    spec fn spec_get(&self, offset: nat) -> T;

    /// Get the value at a specific time offset from the start. Past the end
    /// of a finite transition this is the value at the end.
    fn get(&self, offset: Duration) -> (r: T)
        requires
            self.wf(),
        ensures
            r == self.spec_get(offset.ticks as nat),
    ;

    /// The total duration of a finite transition.
    fn duration(&self) -> (d: Duration)
        requires
            self.wf(),
            !self.spec_infinite(),
        ensures
            d.ticks == self.spec_duration(),
    ;

    /// Whether this transition repeats forever.
    fn is_infinite(&self) -> (r: bool)
        requires
            self.wf(),
        ensures
            r == self.spec_infinite(),
    ;

    /// Past the end, a finite transition holds its end value: the value at
    /// any two offsets at or past the duration is the same.
    proof fn lemma_end_clamp(&self, o1: nat, o2: nat)
        requires
            self.wf(),
            !self.spec_infinite(),
            o1 >= self.spec_duration(),
            o2 >= self.spec_duration(),
        ensures
            self.spec_get(o1) == self.spec_get(o2),
    ;

    /// Whether this transition ends at all.
    fn is_finite(&self) -> (r: bool)
        requires
            self.wf(),
        ensures
            r == !self.spec_infinite(),
    {
        !self.is_infinite()
    }

    /// Whether the transition is over at the given offset. An infinite
    /// transition never is.
    fn is_finished(&self, offset: Duration) -> (r: bool)
        requires
            self.wf(),
        ensures
            r == (!self.spec_infinite() && offset.ticks >= self.spec_duration()),
    {
        if self.is_infinite() {
            false
        } else {
            let d = self.duration();
            offset.ticks >= d.ticks
        }
    }

    /// The value at the start.
    fn start_value(&self) -> (r: T)
        requires
            self.wf(),
        ensures
            r == self.spec_get(0),
    {
        self.get(Duration::zero())
    }

    /// The value at the end of a finite transition.
    fn end_value(&self) -> (r: T)
        requires
            self.wf(),
            !self.spec_infinite(),
        ensures
            r == self.spec_get(self.spec_duration()),
    {
        let d = self.duration();
        self.get(d)
    }

    /// Stay at the end value for `duration` more ticks.
    fn stay(self, duration: Duration) -> (r: SequentialTransition<T, Self, NoneTransition<T>>)
        requires
            self.wf(),
            !self.spec_infinite(),
        ensures
            r.t1 == self,
            r.t2 == (NoneTransition {
                value: self.spec_get(self.spec_duration()),
                duration,
            }),
    {
        let end_value = self.end_value();
        SequentialTransition {
            t1: self,
            t2: NoneTransition { value: end_value, duration },
            phantom: PhantomData,
        }
    }

    /// Continue by interpolating linearly from the end value to `target`.
    fn go_to(self, target: T, duration: Duration) -> (r: SequentialTransition<
        T,
        Self,
        LinearTransition<T>,
    >)
        requires
            self.wf(),
            !self.spec_infinite(),
        ensures
            r.t1 == self,
            r.t2 == (LinearTransition {
                v1: self.spec_get(self.spec_duration()),
                v2: target,
                duration,
            }),
    {
        let end_value = self.end_value();
        SequentialTransition {
            t1: self,
            t2: LinearTransition { v1: end_value, v2: target, duration },
            phantom: PhantomData,
        }
    }

    /// Continue by easing from the end value to `target` under the given
    /// curve.
    fn ease_to(self, target: T, duration: Duration, easing: Easing) -> (r: SequentialTransition<
        T,
        Self,
        EasingTransition<T>,
    >)
        requires
            self.wf(),
            !self.spec_infinite(),
        ensures
            r.t1 == self,
            r.t2 == (EasingTransition {
                v1: self.spec_get(self.spec_duration()),
                v2: target,
                duration,
                easing,
            }),
    {
        let end_value = self.end_value();
        SequentialTransition {
            t1: self,
            t2: EasingTransition { v1: end_value, v2: target, duration, easing },
            phantom: PhantomData,
        }
    }

    /// Repeat this transition forever.
    fn repeat(self) -> (r: RepeatTransition<T, Self>)
        ensures
            r.transition == self,
    {
        RepeatTransition { transition: self, phantom: PhantomData }
    }

    /// Repeat this transition `n` times; a fractional count plays partway
    /// through the last round and then jumps to the end value.
    fn repeat_n(self, n: Factor) -> (r: RepeatNTransition<T, Self>)
        ensures
            r.transition == self,
            r.n == n,
    {
        RepeatNTransition { transition: self, n, phantom: PhantomData }
    }

    /// Play this transition backwards.
    fn reverse(self) -> (r: ReverseTransition<T, Self>)
        ensures
            r.transition == self,
    {
        ReverseTransition { transition: self, phantom: PhantomData }
    }

    /// Invert the direction of this transition. The same time reflection as
    /// `reverse`, under the name the value-chasing interface uses.
    fn invert(self) -> (r: InvertedTransition<T, Self>)
        ensures
            r.transition == self,
    {
        InvertedTransition { transition: self, phantom: PhantomData }
    }

    /// Stretch the time axis by `factor`: the duration is multiplied by it,
    /// and each query offset divided by it.
    fn scale(self, factor: Factor) -> (r: ScaleTransition<T, Self>)
        ensures
            r.transition == self,
            r.factor == factor,
    {
        ScaleTransition { transition: self, factor, phantom: PhantomData }
    }

    /// Stretch the time axis so that the whole transition lasts
    /// `new_duration`. A transition of zero duration is left unscaled, and a
    /// zero target collapses the result to a zero-length hold at the start
    /// value.
    fn scale_to(self, new_duration: Duration) -> (r: ScaleTransition<T, Self>)
        requires
            self.wf(),
            !self.spec_infinite(),
            (new_duration.ticks == 0 && 1 <= self.spec_duration()) ==> self.spec_duration()
                <= 0x7fff_ffff_ffff_ffff,
        ensures
            r.transition == self,
            r.factor == (if self.spec_duration() == 0 {
                Factor { num: 1u64, den: 1u64 }
            } else if new_duration.ticks == 0 {
                Factor { num: 1u64, den: (2 * self.spec_duration() + 1) as u64 }
            } else {
                Factor { num: new_duration.ticks, den: self.spec_duration() as u64 }
            }),
            new_duration.ticks == 0 ==> r.factor.spec_apply(self.spec_duration()) == 0,
    {
        let d = self.duration();
        let factor = if d.ticks == 0 {
            Factor { num: 1, den: 1 }
        } else if new_duration.ticks == 0 {
            Factor { num: 1, den: 2 * d.ticks + 1 }
        } else {
            Factor { num: new_duration.ticks, den: d.ticks }
        };
        proof {
            if new_duration.ticks == 0 && 1 <= d.ticks {
                assert((2 * d.ticks + 1) / 2 == d.ticks as int);
                vstd::arithmetic::div_mod::lemma_basic_div(
                    2 * d.ticks as int,
                    2 * d.ticks as int + 1,
                );
            }
        }
        ScaleTransition { transition: self, factor, phantom: PhantomData }
    }

    /// Run this transition from an absolute start time, producing an
    /// animation that answers queries at absolute times.
    fn run(self, start_time: crate::time::Tick) -> (r: crate::animation::Animation<T, Self>)
        ensures
            r.transition == self,
            r.start_time == start_time,
    {
        crate::animation::Animation { transition: self, start_time, phantom: PhantomData }
    }

    /// Reshape this transition's progress with an easing curve: the whole
    /// timeline is traversed under the curve, whichever template is active.
    fn apply_easing(self, easing: Easing) -> (r: ApplyEasingTransition<T, Self>)
        ensures
            r.transition == self,
            r.easing == easing,
    {
        ApplyEasingTransition { transition: self, easing, phantom: PhantomData }
    }

    /// The window of this transition from `start` to `end`, as a transition
    /// of its own.
    fn slice(self, start: Duration, end: Duration) -> (r: SliceTransition<T, Self>)
        ensures
            r.transition == self,
            r.start == start,
            r.end == end,
    {
        SliceTransition { transition: self, start, end, phantom: PhantomData }
    }
}

/// Concatenate two transitions: the second starts when the first ends.
pub fn followed_by<T: Mix, S1: Transition<T>, S2: Transition<T>>(first: S1, second: S2) -> (r:
    SequentialTransition<T, S1, S2>)
    ensures
        r.t1 == first,
        r.t2 == second,
{
    SequentialTransition { t1: first, t2: second, phantom: PhantomData }
}

/// Start building a transition from an initial value: a zero-length hold,
/// ready to be extended with `stay`, `go_to`, `ease_to` and the combinators.
pub fn transition<T: Mix>(value: T) -> (r: NoneTransition<T>)
    ensures
        r.value == value,
        r.duration.ticks == 0,
{
    NoneTransition { value, duration: Duration::zero() }
}

//----------------------------------------------------------------
// NoneTransition

/// A transition that stays at a single value for its whole duration.
pub struct NoneTransition<T: Mix> {
    pub value: T,
    pub duration: Duration,
}

impl<T: Mix> NoneTransition<T> {
    pub fn new(value: T, duration: Duration) -> (r: Self)
        ensures
            r == (NoneTransition { value, duration }),
    {
        NoneTransition { value, duration }
    }
}

impl<T: Mix> Transition<T> for NoneTransition<T> {
    open spec fn wf(&self) -> bool {
        true
    }

    open spec fn spec_infinite(&self) -> bool {
        false
    }

    open spec fn spec_duration(&self) -> nat {
        self.duration.ticks as nat
    }

    open spec fn spec_get(&self, offset: nat) -> T {
        self.value
    }

    fn get(&self, offset: Duration) -> (r: T) {
        self.value
    }

    fn duration(&self) -> (d: Duration) {
        self.duration
    }

    fn is_infinite(&self) -> (r: bool) {
        false
    }

    proof fn lemma_end_clamp(&self, o1: nat, o2: nat) {
    }
}

//----------------------------------------------------------------
// LinearTransition

/// A transition that interpolates linearly between two values.
pub struct LinearTransition<T: Mix> {
    pub v1: T,
    pub v2: T,
    pub duration: Duration,
}

impl<T: Mix> LinearTransition<T> {
    pub fn new(v1: T, v2: T, duration: Duration) -> (r: Self)
        ensures
            r == (LinearTransition { v1, v2, duration }),
    {
        LinearTransition { v1, v2, duration }
    }
}

impl<T: Mix> Transition<T> for LinearTransition<T> {
    open spec fn wf(&self) -> bool {
        true
    }

    open spec fn spec_infinite(&self) -> bool {
        false
    }

    open spec fn spec_duration(&self) -> nat {
        self.duration.ticks as nat
    }

    open spec fn spec_get(&self, offset: nat) -> T {
        self.v1.spec_mix(self.v2, clamp_frac(offset, self.duration.ticks as nat))
    }

    fn get(&self, offset: Duration) -> (r: T) {
        let t = clamp_fraction(offset, self.duration);
        self.v1.mix(self.v2, t)
    }

    fn duration(&self) -> (d: Duration) {
        self.duration
    }

    fn is_infinite(&self) -> (r: bool) {
        false
    }

    proof fn lemma_end_clamp(&self, o1: nat, o2: nat) {
    }
}

//----------------------------------------------------------------
// EasingTransition

/// A transition that eases between two values under a curve.
pub struct EasingTransition<T: Mix> {
    pub v1: T,
    pub v2: T,
    pub duration: Duration,
    pub easing: Easing,
}

impl<T: Mix> EasingTransition<T> {
    pub fn new(v1: T, v2: T, duration: Duration, easing: Easing) -> (r: Self)
        ensures
            r == (EasingTransition { v1, v2, duration, easing }),
    {
        EasingTransition { v1, v2, duration, easing }
    }
}

impl<T: Mix> Transition<T> for EasingTransition<T> {
    open spec fn wf(&self) -> bool {
        self.easing.wf()
    }

    open spec fn spec_infinite(&self) -> bool {
        false
    }

    open spec fn spec_duration(&self) -> nat {
        self.duration.ticks as nat
    }

    open spec fn spec_get(&self, offset: nat) -> T {
        self.v1.spec_mix(
            self.v2,
            self.easing.spec_ease(clamp_frac(offset, self.duration.ticks as nat)),
        )
    }

    fn get(&self, offset: Duration) -> (r: T) {
        let t = clamp_fraction(offset, self.duration);
        let e = self.easing.ease(t);
        self.v1.mix(self.v2, e)
    }

    fn duration(&self) -> (d: Duration) {
        self.duration
    }

    fn is_infinite(&self) -> (r: bool) {
        false
    }

    proof fn lemma_end_clamp(&self, o1: nat, o2: nat) {
    }
}

/// Under a curve that ends at one, an eased transition lands exactly on its
/// second value at the duration and past it.
pub proof fn lemma_easing_end_value<T: Mix>(e: &EasingTransition<T>, o: nat)
    requires
        e.wf(),
        o >= e.duration.ticks,
        e.easing.ends_at_one(),
    ensures
        e.spec_get(o) == e.v2,
{
    let t = clamp_frac(o, e.duration.ticks as nat);
    assert(t.wf() && t.is_one());
    e.easing.lemma_ease_one(t);
    e.v1.lemma_mix_one(e.v2, e.easing.spec_ease(t));
}

//----------------------------------------------------------------
// SequentialTransition

/// Two transitions played one after the other.
pub struct SequentialTransition<T: Mix, S1: Transition<T>, S2: Transition<T>> {
    pub t1: S1,
    pub t2: S2,
    pub phantom: PhantomData<T>,
}

impl<T: Mix, S1: Transition<T>, S2: Transition<T>> SequentialTransition<T, S1, S2> {
    pub fn new(t1: S1, t2: S2) -> (r: Self)
        ensures
            r.t1 == t1,
            r.t2 == t2,
    {
        SequentialTransition { t1, t2, phantom: PhantomData }
    }
}

impl<T: Mix, S1: Transition<T>, S2: Transition<T>> Transition<T> for SequentialTransition<
    T,
    S1,
    S2,
> {
    open spec fn wf(&self) -> bool {
        &&& self.t1.wf()
        &&& self.t2.wf()
        &&& !self.t1.spec_infinite()
        &&& (!self.t2.spec_infinite() ==> self.t1.spec_duration() + self.t2.spec_duration()
            <= u64::MAX)
    }

    open spec fn spec_infinite(&self) -> bool {
        self.t2.spec_infinite()
    }

    open spec fn spec_duration(&self) -> nat {
        self.t1.spec_duration() + self.t2.spec_duration()
    }

    open spec fn spec_get(&self, offset: nat) -> T {
        if offset < self.t1.spec_duration() {
            self.t1.spec_get(offset)
        } else {
            self.t2.spec_get((offset - self.t1.spec_duration()) as nat)
        }
    }

    fn get(&self, offset: Duration) -> (r: T) {
        let d1 = self.t1.duration();
        if offset.ticks < d1.ticks {
            self.t1.get(offset)
        } else {
            self.t2.get(Duration { ticks: offset.ticks - d1.ticks })
        }
    }

    fn duration(&self) -> (d: Duration) {
        let d1 = self.t1.duration();
        let d2 = self.t2.duration();
        d1.add(&d2)
    }

    fn is_infinite(&self) -> (r: bool) {
        self.t2.is_infinite()
    }

    proof fn lemma_end_clamp(&self, o1: nat, o2: nat) {
        let d1 = self.t1.spec_duration();
        self.t2.lemma_end_clamp((o1 - d1) as nat, (o2 - d1) as nat);
    }
}

//----------------------------------------------------------------
// RepeatTransition

/// A transition that repeats another one forever. It has no duration and no
/// end value.
pub struct RepeatTransition<T: Mix, S: Transition<T>> {
    pub transition: S,
    pub phantom: PhantomData<T>,
}

impl<T: Mix, S: Transition<T>> RepeatTransition<T, S> {
    pub fn new(transition: S) -> (r: Self)
        ensures
            r.transition == transition,
    {
        RepeatTransition { transition, phantom: PhantomData }
    }
}

impl<T: Mix, S: Transition<T>> Transition<T> for RepeatTransition<T, S> {
    open spec fn wf(&self) -> bool {
        &&& self.transition.wf()
        &&& !self.transition.spec_infinite()
        &&& 1 <= self.transition.spec_duration()
    }

    open spec fn spec_infinite(&self) -> bool {
        true
    }

    open spec fn spec_duration(&self) -> nat {
        0
    }

    open spec fn spec_get(&self, offset: nat) -> T {
        self.transition.spec_get(offset % self.transition.spec_duration())
    }

    fn get(&self, offset: Duration) -> (r: T) {
        let d = self.transition.duration();
        self.transition.get(Duration { ticks: offset.ticks % d.ticks })
    }

    fn duration(&self) -> (d: Duration) {
        Duration::zero()
    }

    fn is_infinite(&self) -> (r: bool) {
        true
    }

    proof fn lemma_end_clamp(&self, o1: nat, o2: nat) {
    }
}

//----------------------------------------------------------------
// RepeatNTransition

/// A transition that repeats another one `n` times, where `n` is a
/// non-negative rational count: a fractional count plays partway through the
/// last round, and past `n` whole rounds the value is fixed at the child's
/// end value. A count of zero stays at the start value. The total duration
/// rounds up, so that exactly at the duration the end value already stands.
pub struct RepeatNTransition<T: Mix, S: Transition<T>> {
    pub transition: S,
    pub n: Factor,
    pub phantom: PhantomData<T>,
}

impl<T: Mix, S: Transition<T>> RepeatNTransition<T, S> {
    pub fn new(transition: S, n: Factor) -> (r: Self)
        ensures
            r.transition == transition,
            r.n == n,
    {
        RepeatNTransition { transition, n, phantom: PhantomData }
    }
}

impl<T: Mix, S: Transition<T>> Transition<T> for RepeatNTransition<T, S> {
    open spec fn wf(&self) -> bool {
        &&& self.transition.wf()
        &&& !self.transition.spec_infinite()
        &&& 1 <= self.transition.spec_duration()
        &&& self.n.wf()
        &&& self.n.spec_apply_ceil(self.transition.spec_duration()) <= u64::MAX
    }

    open spec fn spec_infinite(&self) -> bool {
        false
    }

    open spec fn spec_duration(&self) -> nat {
        self.n.spec_apply_ceil(self.transition.spec_duration())
    }

    open spec fn spec_get(&self, offset: nat) -> T {
        let d = self.transition.spec_duration();
        if offset * self.n.den < self.n.num * d {
            self.transition.spec_get(offset % d)
        } else if self.n.num == 0 {
            self.transition.spec_get(0)
        } else {
            self.transition.spec_get(d)
        }
    }

    fn get(&self, offset: Duration) -> (r: T) {
        let d = self.transition.duration();
        proof {
            crate::time::lemma_u64_product_fits(offset.ticks as int, self.n.den as int);
            crate::time::lemma_u64_product_fits(self.n.num as int, d.ticks as int);
        }
        if (offset.ticks as u128) * (self.n.den as u128) < (self.n.num as u128) * (d.ticks
            as u128) {
            self.transition.get(Duration { ticks: offset.ticks % d.ticks })
        } else if self.n.num == 0 {
            self.transition.get(Duration { ticks: 0 })
        } else {
            self.transition.get(d)
        }
    }

    fn duration(&self) -> (d: Duration) {
        let d = self.transition.duration();
        d.scale_ceil(&self.n)
    }

    fn is_infinite(&self) -> (r: bool) {
        false
    }

    proof fn lemma_end_clamp(&self, o1: nat, o2: nat) {
        let d = self.transition.spec_duration();
        crate::fraction::lemma_apply_ceil_reaches(&self.n, d, o1);
        crate::fraction::lemma_apply_ceil_reaches(&self.n, d, o2);
        assert(d * self.n.num == self.n.num * d) by (nonlinear_arith);
    }
}

//----------------------------------------------------------------
// ReverseTransition

/// A transition played backwards: the value at offset `o` is the original
/// value at `duration - o`.
pub struct ReverseTransition<T: Mix, S: Transition<T>> {
    pub transition: S,
    pub phantom: PhantomData<T>,
}

impl<T: Mix, S: Transition<T>> ReverseTransition<T, S> {
    pub fn new(transition: S) -> (r: Self)
        ensures
            r.transition == transition,
    {
        ReverseTransition { transition, phantom: PhantomData }
    }
}

impl<T: Mix, S: Transition<T>> Transition<T> for ReverseTransition<T, S> {
    open spec fn wf(&self) -> bool {
        self.transition.wf() && !self.transition.spec_infinite()
    }

    open spec fn spec_infinite(&self) -> bool {
        false
    }

    open spec fn spec_duration(&self) -> nat {
        self.transition.spec_duration()
    }

    open spec fn spec_get(&self, offset: nat) -> T {
        let d = self.transition.spec_duration();
        let oc = if offset >= d {
            d
        } else {
            offset
        };
        self.transition.spec_get((d - oc) as nat)
    }

    fn get(&self, offset: Duration) -> (r: T) {
        let d = self.transition.duration();
        let oc: u64 = if offset.ticks >= d.ticks {
            d.ticks
        } else {
            offset.ticks
        };
        self.transition.get(Duration { ticks: d.ticks - oc })
    }

    fn duration(&self) -> (d: Duration) {
        self.transition.duration()
    }

    fn is_infinite(&self) -> (r: bool) {
        false
    }

    proof fn lemma_end_clamp(&self, o1: nat, o2: nat) {
    }
}

//----------------------------------------------------------------
// InvertedTransition

/// The same time reflection as [`ReverseTransition`], kept as a type of its
/// own so that inverting reads differently from reversing at call sites.
pub struct InvertedTransition<T: Mix, S: Transition<T>> {
    pub transition: S,
    pub phantom: PhantomData<T>,
}

impl<T: Mix, S: Transition<T>> InvertedTransition<T, S> {
    pub fn new(transition: S) -> (r: Self)
        ensures
            r.transition == transition,
    {
        InvertedTransition { transition, phantom: PhantomData }
    }
}

impl<T: Mix, S: Transition<T>> Transition<T> for InvertedTransition<T, S> {
    open spec fn wf(&self) -> bool {
        self.transition.wf() && !self.transition.spec_infinite()
    }

    open spec fn spec_infinite(&self) -> bool {
        false
    }

    open spec fn spec_duration(&self) -> nat {
        self.transition.spec_duration()
    }

    open spec fn spec_get(&self, offset: nat) -> T {
        let d = self.transition.spec_duration();
        let oc = if offset >= d {
            d
        } else {
            offset
        };
        self.transition.spec_get((d - oc) as nat)
    }

    fn get(&self, offset: Duration) -> (r: T) {
        let d = self.transition.duration();
        let oc: u64 = if offset.ticks >= d.ticks {
            d.ticks
        } else {
            offset.ticks
        };
        self.transition.get(Duration { ticks: d.ticks - oc })
    }

    fn duration(&self) -> (d: Duration) {
        self.transition.duration()
    }

    fn is_infinite(&self) -> (r: bool) {
        false
    }

    proof fn lemma_end_clamp(&self, o1: nat, o2: nat) {
    }
}

//----------------------------------------------------------------
// ScaleTransition

/// A transition with its time axis stretched by a positive factor.
pub struct ScaleTransition<T: Mix, S: Transition<T>> {
    pub transition: S,
    pub factor: Factor,
    pub phantom: PhantomData<T>,
}

impl<T: Mix, S: Transition<T>> ScaleTransition<T, S> {
    pub fn new(transition: S, factor: Factor) -> (r: Self)
        ensures
            r.transition == transition,
            r.factor == factor,
    {
        ScaleTransition { transition, factor, phantom: PhantomData }
    }
}

impl<T: Mix, S: Transition<T>> Transition<T> for ScaleTransition<T, S> {
    open spec fn wf(&self) -> bool {
        &&& self.transition.wf()
        &&& !self.transition.spec_infinite()
        &&& self.factor.wf()
        &&& self.factor.is_positive()
        &&& self.factor.spec_apply(self.transition.spec_duration()) <= u64::MAX
        &&& self.factor.spec_unapply(self.factor.spec_apply(self.transition.spec_duration()))
            <= u64::MAX
    }

    open spec fn spec_infinite(&self) -> bool {
        false
    }

    open spec fn spec_duration(&self) -> nat {
        self.factor.spec_apply(self.transition.spec_duration())
    }

    open spec fn spec_get(&self, offset: nat) -> T {
        let ds = self.spec_duration();
        let oc = if offset >= ds {
            ds
        } else {
            offset
        };
        self.transition.spec_get(self.factor.spec_unapply(oc))
    }

    fn get(&self, offset: Duration) -> (r: T) {
        let d = self.transition.duration();
        let ds = d.scale(&self.factor);
        let oc = if offset.ticks >= ds.ticks {
            ds
        } else {
            offset
        };
        proof {
            lemma_factor_unapply_monotone(&self.factor, oc.ticks as nat, ds.ticks as nat);
        }
        self.transition.get(oc.unscale(&self.factor))
    }

    fn duration(&self) -> (d: Duration) {
        let d = self.transition.duration();
        d.scale(&self.factor)
    }

    fn is_infinite(&self) -> (r: bool) {
        false
    }

    proof fn lemma_end_clamp(&self, o1: nat, o2: nat) {
    }
}

/// Dividing by a factor is monotone in the dividend.
pub proof fn lemma_factor_unapply_monotone(f: &Factor, a: nat, b: nat)
    requires
        f.wf(),
        f.is_positive(),
        a <= b,
    ensures
        f.spec_unapply(a) <= f.spec_unapply(b),
{
    vstd::arithmetic::mul::lemma_mul_inequality(a as int, b as int, f.den as int);
    vstd::arithmetic::div_mod::lemma_div_is_ordered(
        a * f.den + f.num / 2,
        b * f.den + f.num / 2,
        f.num as int,
    );
}

//----------------------------------------------------------------
// SliceTransition

/// The window of another transition between two offsets, replayed from zero.
pub struct SliceTransition<T: Mix, S: Transition<T>> {
    pub transition: S,
    pub start: Duration,
    pub end: Duration,
    pub phantom: PhantomData<T>,
}

impl<T: Mix, S: Transition<T>> SliceTransition<T, S> {
    pub fn new(transition: S, start: Duration, end: Duration) -> (r: Self)
        ensures
            r.transition == transition,
            r.start == start,
            r.end == end,
    {
        SliceTransition { transition, start, end, phantom: PhantomData }
    }
}

impl<T: Mix, S: Transition<T>> Transition<T> for SliceTransition<T, S> {
    open spec fn wf(&self) -> bool {
        self.transition.wf() && self.start.ticks <= self.end.ticks
    }

    open spec fn spec_infinite(&self) -> bool {
        false
    }

    open spec fn spec_duration(&self) -> nat {
        (self.end.ticks - self.start.ticks) as nat
    }

    open spec fn spec_get(&self, offset: nat) -> T {
        let dw = self.spec_duration();
        let oc = if offset >= dw {
            dw
        } else {
            offset
        };
        self.transition.spec_get((self.start.ticks + oc) as nat)
    }

    fn get(&self, offset: Duration) -> (r: T) {
        let dw: u64 = self.end.ticks - self.start.ticks;
        let oc: u64 = if offset.ticks >= dw {
            dw
        } else {
            offset.ticks
        };
        self.transition.get(Duration { ticks: self.start.ticks + oc })
    }

    fn duration(&self) -> (d: Duration) {
        Duration { ticks: self.end.ticks - self.start.ticks }
    }

    fn is_infinite(&self) -> (r: bool) {
        false
    }

    proof fn lemma_end_clamp(&self, o1: nat, o2: nat) {
    }
}

//----------------------------------------------------------------
// ApplyEasingTransition

/// A transition whose overall progress is reshaped by an easing curve: a
/// query at the fraction `t` of the duration is answered at the fraction
/// `ease(t)` instead, whichever part of the timeline that lands on.
pub struct ApplyEasingTransition<T: Mix, S: Transition<T>> {
    pub transition: S,
    pub easing: Easing,
    pub phantom: PhantomData<T>,
}

impl<T: Mix, S: Transition<T>> ApplyEasingTransition<T, S> {
    pub fn new(transition: S, easing: Easing) -> (r: Self)
        ensures
            r.transition == transition,
            r.easing == easing,
    {
        ApplyEasingTransition { transition, easing, phantom: PhantomData }
    }
}

impl<T: Mix, S: Transition<T>> Transition<T> for ApplyEasingTransition<T, S> {
    open spec fn wf(&self) -> bool {
        self.transition.wf() && !self.transition.spec_infinite() && self.easing.wf()
    }

    open spec fn spec_infinite(&self) -> bool {
        false
    }

    open spec fn spec_duration(&self) -> nat {
        self.transition.spec_duration()
    }

    open spec fn spec_get(&self, offset: nat) -> T {
        let d = self.transition.spec_duration();
        let e = self.easing.spec_ease(clamp_frac(offset, d));
        self.transition.spec_get(crate::mix::scale_frac(d, e))
    }

    fn get(&self, offset: Duration) -> (r: T) {
        let d = self.transition.duration();
        let t = clamp_fraction(offset, d);
        let e = self.easing.ease(t);
        let eased = crate::mix::frac_scale(d.ticks, e);
        self.transition.get(Duration { ticks: eased })
    }

    fn duration(&self) -> (d: Duration) {
        self.transition.duration()
    }

    fn is_infinite(&self) -> (r: bool) {
        false
    }

    proof fn lemma_end_clamp(&self, o1: nat, o2: nat) {
    }
}

//----------------------------------------------------------------
// The algebra's laws

/// Sequencing adds durations, and past the first part the second plays from
/// its own start: the value of `A` followed by `B` at `duration(A) + x` is
/// the value of `B` at `x`.
pub proof fn lemma_sequential_additivity<T: Mix, S1: Transition<T>, S2: Transition<T>>(
    s: &SequentialTransition<T, S1, S2>,
    x: nat,
)
    requires
        s.wf(),
    ensures
        s.spec_duration() == s.t1.spec_duration() + s.t2.spec_duration(),
        s.spec_get(s.t1.spec_duration() + x) == s.t2.spec_get(x),
{
}

/// Repetition is periodic: the value `k` whole rounds later is the same.
pub proof fn lemma_repeat_periodic<T: Mix, S: Transition<T>>(
    r: &RepeatTransition<T, S>,
    x: nat,
    k: nat,
)
    requires
        r.wf(),
    ensures
        r.spec_get(x + k * r.transition.spec_duration()) == r.spec_get(x),
{
    let d = r.transition.spec_duration();
    lemma_mod_multiples_vanish_nat(x, k, d);
}

/// Adding whole multiples of the modulus does not change a remainder.
pub proof fn lemma_mod_multiples_vanish_nat(x: nat, k: nat, d: nat)
    requires
        1 <= d,
    ensures
        (x + k * d) % d == x % d,
    decreases k,
{
    if k > 0 {
        lemma_mod_multiples_vanish_nat(x, (k - 1) as nat, d);
        assert(x + k * d == (x + (k - 1) * d) + d) by (nonlinear_arith);
        vstd::arithmetic::div_mod::lemma_mod_add_multiples_vanish(
            (x + (k - 1) * d) as int,
            d as int,
        );
    } else {
        assert(k * d == 0) by (nonlinear_arith)
            requires
                k == 0,
        ;
    }
}

/// Reversal is an involution: reversing twice gives back the original values
/// inside the duration, and a single reversal starts at the original end
/// value.
pub proof fn lemma_reverse_involution<T: Mix, S: Transition<T>>(
    rr: &ReverseTransition<T, ReverseTransition<T, S>>,
    x: nat,
)
    requires
        rr.wf(),
        x <= rr.spec_duration(),
    ensures
        rr.spec_get(x) == rr.transition.transition.spec_get(x),
        rr.transition.spec_get(0) == rr.transition.transition.spec_get(
            rr.transition.transition.spec_duration(),
        ),
{
}

} // verus!
