//! Tools to construct a quad tree of 2-dimensional quadrants
//! holding "newtonian" bodies and calculating their gravitational forces.
pub mod body;
pub mod gravity;
pub mod laws;
pub mod quadnode;
pub mod tree;

pub use body::Body;
pub use body::Newtonian;
pub use gravity::Force;
pub use gravity::Gravity;
pub use tree::QuadConfig;
pub use quadnode::InsertError;
pub use quadnode::QuadNode;
