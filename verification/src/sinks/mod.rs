pub mod null;
pub mod rotating;

pub use null::NullSink;
pub use rotating::{FileMode, RotationPolicy, TimeInterval};
