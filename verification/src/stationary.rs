use vstd::prelude::*;
use crate::animated::Animated;
use crate::time::Tick;

verus! {

/// A value that does not change over time. Marking a plain value type with
/// this trait lets it stand wherever an animated value is expected, as an
/// always-finished animation of itself.
pub trait Stationary: Sized + Copy {

}

impl Stationary for bool {

}

impl Stationary for i32 {

}

impl Stationary for u32 {

}

impl Stationary for i64 {

}

impl Stationary for u64 {

}

impl<T: Stationary> Animated<T> for T {
    open spec fn wf(&self) -> bool {
        true
    }

    open spec fn ready(&self, time: nat) -> bool {
        true
    }

    open spec fn spec_value(&self, time: nat) -> T {
        *self
    }

    open spec fn spec_finished(&self, time: nat) -> bool {
        true
    }

    fn get(&self, time: Tick) -> (r: T) {
        *self
    }

    fn is_finished(&self, time: Tick) -> (r: bool) {
        true
    }
}

} // verus!
