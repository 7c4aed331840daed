//! Directory scanning and caching engine of a disk usage browser.
//!
//! The filesystem, the clock and the user interface live outside this
//! library: they hand it plain values (a tree of sizes, a listing of a
//! directory, a time in milliseconds) and it decides what is shown.

pub mod text;
pub mod tree;
pub mod path;
pub mod entry;
pub mod sort;
pub mod cache;
pub mod analyzer;
