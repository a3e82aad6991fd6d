//! Colours, depth keys and the depth-tested framebuffer.

pub mod color;
pub mod depth;
pub mod screen;

pub use color::Color;
pub use depth::depth_key;
pub use screen::Screen;
