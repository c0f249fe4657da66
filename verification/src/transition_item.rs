use crate::mix::Mix;
use vstd::prelude::*;

verus! {

/// The capability a value type needs to travel through a transition: the
/// interpolation contract. Every interpolatable type qualifies.
pub trait TransitionItem: Mix {

}

impl<T: Mix> TransitionItem for T {

}

} // verus!
