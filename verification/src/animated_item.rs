use crate::mix::Mix;
use vstd::prelude::*;

verus! {

/// The capability a value type needs to live inside an animated value: the
/// interpolation contract. Every interpolatable type qualifies.
pub trait AnimatedItem: Mix {

}

impl<T: Mix> AnimatedItem for T {

}

} // verus!
