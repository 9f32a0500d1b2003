//! A thread-safe, bounded freelist of power-of-two sized blocks.
//!
//! Each size class is a fixed-capacity pool of word-sized addresses whose
//! slots are handed out through two bitmaps: one for slots owned by a
//! writer and one for slots holding a readable address.
pub mod bits;
pub mod pool;
pub mod freelist;
pub mod tracker;
pub mod model;

pub use freelist::{Error, FreeList};
pub use pool::Dump;
pub use tracker::Tracker;
