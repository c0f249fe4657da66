use vstd::prelude::*;
use std::marker::PhantomData;
use crate::animated::Animated;
use crate::mix::Mix;
use crate::time::{Duration, Tick};
use crate::transition::Transition;

verus! {

/// A transition bound to an absolute start time: queries at absolute times
/// are translated to offsets from the start and delegated to the template.
pub struct Animation<T: Mix, S: Transition<T>> {
    pub transition: S,
    pub start_time: Tick,
    pub phantom: PhantomData<T>,
}

impl<T: Mix, S: Transition<T>> Animation<T, S> {
    /// Start the transition at the given absolute time.
    pub fn start(transition: S, start_time: Tick) -> (r: Self)
        ensures
            r.transition == transition,
            r.start_time == start_time,
    {
        Animation { transition, start_time, phantom: PhantomData }
    }

    /// The absolute time the animation started.
    pub fn start_time(&self) -> (r: Tick)
        ensures
            r == self.start_time,
    {
        self.start_time
    }

    /// The total duration of a finite animation's template.
    pub fn duration(&self) -> (d: Duration)
        requires
            self.transition.wf(),
            !self.transition.spec_infinite(),
        ensures
            d.ticks == self.transition.spec_duration(),
    {
        self.transition.duration()
    }

    /// Whether the animation ends at all.
    pub fn is_finite(&self) -> (r: bool)
        requires
            self.transition.wf(),
        ensures
            r == !self.transition.spec_infinite(),
    {
        self.transition.is_finite()
    }

    /// The absolute time a finite animation ends.
    pub fn end_time(&self) -> (r: Tick)
        requires
            self.transition.wf(),
            !self.transition.spec_infinite(),
            self.start_time.at + self.transition.spec_duration() <= u64::MAX,
        ensures
            r.at == self.start_time.at + self.transition.spec_duration(),
    {
        let d = self.transition.duration();
        self.start_time.advance(&d)
    }
}

impl<T: Mix, S: Transition<T>> Animated<T> for Animation<T, S> {
    open spec fn wf(&self) -> bool {
        self.transition.wf()
    }

    open spec fn ready(&self, time: nat) -> bool {
        time >= self.start_time.at
    }

    open spec fn spec_value(&self, time: nat) -> T {
        self.transition.spec_get((time - self.start_time.at) as nat)
    }

    open spec fn spec_finished(&self, time: nat) -> bool {
        !self.transition.spec_infinite() && time - self.start_time.at
            >= self.transition.spec_duration()
    }

    fn get(&self, time: Tick) -> (r: T) {
        let offset = time.since(&self.start_time);
        self.transition.get(offset)
    }

    fn is_finished(&self, time: Tick) -> (r: bool) {
        let offset = time.since(&self.start_time);
        self.transition.is_finished(offset)
    }
}

} // verus!
