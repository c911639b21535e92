//! A curated, capacity-bounded feed of technical write-up posts.
//!
//! The crate decides which incoming posts qualify for the feed (a multi-signal
//! classifier over tagged text fragments), keeps qualifying posts and their
//! likes in a store with lifecycle operations, evicts the oldest posts once a
//! retention cap is exceeded, and serves the curated set through a
//! cursor-paginated read interface.

pub mod models;
pub mod numtext;
pub mod classify;
pub mod extract;
pub mod feed;
pub mod signals;
pub mod store;

pub use crate::classify::does_the_post_belong_to_the_feed;
pub use crate::models::DbPost;
pub use crate::models::PostScoring;
pub use crate::models::TextInPost;
