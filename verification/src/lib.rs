pub mod buffer;
pub mod cursor;
pub mod render;
