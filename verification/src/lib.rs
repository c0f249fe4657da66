//! A temporal-interpolation engine: keyframe templates composed by
//! combinators, animations bound to a start time, inertial values that chase a
//! retargetable goal without jumps, and arc-length-parameterized paths.
//!
//! Time is measured in integer ticks, and interpolation positions are exact
//! rational fractions, so every evaluation is deterministic and verified.

pub mod animated;
pub mod animated_item;
pub mod animation;
pub mod distance;
pub mod easing;
pub mod fraction;
pub mod inertial;
pub mod mix;
pub mod path;
pub mod poly;
pub mod smooth_array;
pub mod stationary;
pub mod time;
pub mod transition;
pub mod transition_item;

pub use animated::Animated;
pub use animated_item::AnimatedItem;
pub use animation::Animation;
pub use distance::Distance;
pub use easing::Easing;
pub use fraction::{Factor, Fraction};
pub use inertial::Inertial;
pub use mix::{Mix, Pair};
pub use path::{Bezier, Bezier0, Bezier1, Bezier2, Bezier3, Curve, Path, PathBuilder};
pub use poly::{poly_to, Poly, PolyTransition};
pub use smooth_array::SmoothArray;
pub use stationary::Stationary;
pub use time::{Duration, Tick};
pub use transition::{
    followed_by, transition, ApplyEasingTransition, EasingTransition, InvertedTransition, LinearTransition, NoneTransition,
    RepeatNTransition, RepeatTransition, ReverseTransition, ScaleTransition, SequentialTransition,
    SliceTransition, Transition,
};
pub use transition_item::TransitionItem;
