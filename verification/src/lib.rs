//! A line-oriented converter from a small Markdown dialect to HTML.
//!
//! The converter walks a document line by line.  A stateful scanner
//! ([`scan`]) tracks whether the current line sits inside a fenced code
//! block and how deeply nested the current list is; every other line runs
//! through a fixed, ordered chain of inline rewrites ([`rewrite`]):
//! headers, bold/italic, inline code, horizontal rules, images, links,
//! strikethrough.  [`chars`] holds the character-level primitives the
//! rewriters share, and [`laws`] states and proves the converter's
//! document-level properties.

pub mod chars;
pub mod laws;
pub mod rewrite;
pub mod scan;
