//! Geometrical shapes on the fixed-point plane.
pub mod point;
pub mod rect;

pub use point::Point;
pub use point::ONE;
pub use rect::Cardinal;
pub use rect::Rect;
