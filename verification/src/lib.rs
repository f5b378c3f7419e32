pub mod component;
pub mod components;
pub mod entity;
pub mod presentation;
pub mod system;
pub mod world;

pub use components::Name;
