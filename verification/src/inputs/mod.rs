pub mod keyboard;
