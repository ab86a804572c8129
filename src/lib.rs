//! Inline index markup for books: `{{i:..}}`, `{{hi:..}}` and `{{ii:..}}` spans are collected
//! into index entries, and an index page is rendered from them.
pub mod text;
pub mod canon;
pub mod asciidoc;
pub mod table;
pub mod scan;
pub mod sort;
pub mod store;
pub mod chapter;
pub mod page;
pub mod index;

pub use canon::canonicalize;
pub use index::Index;
pub use scan::{find_markup, MarkupMatch};
