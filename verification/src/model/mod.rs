pub mod error;
pub mod face;
pub mod geometry;
pub mod material;
pub mod mesh;
pub mod number;
pub mod object;
pub mod text;
pub mod weld;
