pub mod config;
pub mod frame_time;
pub mod window;
pub mod windowmodes;
