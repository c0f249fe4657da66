pub mod bezier;
pub mod curve;
pub mod path_builder;
pub mod path_struct;

pub use bezier::{Bezier, Bezier0, Bezier1, Bezier2, Bezier3};
pub use curve::Curve;
pub use path_builder::PathBuilder;
pub use path_struct::Path;
