//! Ready-made components.

pub mod name;

pub use name::Name;
