//! A small engine core: object and material text read into welded vertex
//! and index buffers, frame pacing, keyboard state, a registry of systems
//! and window set-up decisions, each with its contract.

pub mod ecs;
pub mod inputs;
pub mod model;
pub mod sequence;
pub mod window;
