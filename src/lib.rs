//! A preprocessor that rewrites tagged regions of book chapters into HTML:
//! `scan` finds and pairs markers, `rewrite` applies tag rules to a text,
//! `book` walks the tree of chapters, and `laws` states what holds of them.
pub mod book;
pub mod laws;
pub mod rewrite;
pub mod scan;
