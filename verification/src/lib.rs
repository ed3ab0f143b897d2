//! Type-grouped directory listings for a read-only file server: classification
//! of entries, ordered grouping, HTML rendering, and the commands that produce
//! previews.

pub mod category;
pub mod convert;
pub mod endpoints;
pub mod entry;
pub mod error;
pub mod group;
pub mod paths;
pub mod render;
pub mod sort;
pub mod text;
