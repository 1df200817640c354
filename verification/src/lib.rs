//! A gravitational simulation of point masses on a bounded, wrapping plane.
//!
//! Every quantity is a whole number. Lengths, positions, velocities and time
//! steps are fixed-point numbers with three decimal places (see
//! [`geo::ONE`]); masses and densities are plain counts. The forces between
//! distant bodies are approximated with a quadrant tree (see [`quad`]).
pub mod geo;
pub mod num;
pub mod planet;
pub mod quad;
mod random;
pub mod universe;
pub mod world;

pub use geo::Cardinal;
pub use geo::Point;
pub use geo::Rect;
pub use planet::Planet;
pub use quad::Body;
pub use quad::Force;
pub use quad::Gravity;
pub use quad::InsertError;
pub use quad::Newtonian;
pub use quad::QuadConfig;
pub use quad::QuadNode;
pub use universe::Universe;
