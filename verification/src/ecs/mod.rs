pub mod components;
pub mod systems;
pub mod world;
