//! The core of a software renderer for meshes of points and triangles in
//! three or four dimensions: colours, a depth-tested framebuffer, point
//! stamps, mesh containers, mesh deduplication, the layout of rotation
//! matrices and the partition of a draw among workers.
//!
//! The library works on whole numbers throughout. A position enters it as the
//! grid cell that it falls into, a depth as an integer key that orders as the
//! depths do, and a projected point as the pixel that it lands on; the
//! arithmetic that produces these lives with the caller.

mod buckets;
pub mod dedup;
pub mod dispatch;
pub mod object;
pub mod pos;
pub mod projection;
pub mod render;
pub mod stamp;

pub use dedup::{remove_duplicates, remove_duplicates_reporting};
pub use stamp::print_point;
