use vstd::prelude::*;
use crate::time::Tick;

verus! {

/// Anything that can be asked for a value at an absolute time: a running
/// animation, an inertial value, or a plain stationary value. This pair of
/// questions — the value now, and whether movement is over — is the entire
/// consumption contract for rendering callers.
pub trait Animated<T>: Sized {
    /// Internal consistency of the animated value.
    spec fn wf(&self) -> bool;

    /// The times at which this value may be queried; a running animation,
    /// for instance, cannot be asked about times before its start.
    spec fn ready(&self, time: nat) -> bool;

    /// The value at an absolute time, as a pure function.
    spec fn spec_value(&self, time: nat) -> T;

    /// Whether all movement is over at an absolute time.
    spec fn spec_finished(&self, time: nat) -> bool;

    /// The value at `time`.
    fn get(&self, time: Tick) -> (r: T)
        requires
            self.wf(),
            self.ready(time.at as nat),
        ensures
            r == self.spec_value(time.at as nat),
    ;

    /// Whether all movement is over at `time`.
    fn is_finished(&self, time: Tick) -> (r: bool)
        requires
            self.wf(),
            self.ready(time.at as nat),
        ensures
            r == self.spec_finished(time.at as nat),
    ;
}

} // verus!
