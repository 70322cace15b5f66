//! Turns exported social-media post records into blog-post sources:
//! caption parsing, slugs, collision-free file names, front matter,
//! and thumbnail geometry.
pub mod text;
pub mod caption;
pub mod tags;
pub mod stable;
pub mod slug;
pub mod timestamp;
pub mod filename;
pub mod thumbnail;
pub mod post;
