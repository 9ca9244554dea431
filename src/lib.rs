//! A compiler from a small line-oriented markup language to HTML.
//!
//! [`parser::parse`] turns a whole document into an HTML fragment. Each line
//! is classified by its leading characters and handed to the engine of its
//! block: headings, code blocks and tables ([`blocks`]), lists ([`lists`]),
//! block quotes ([`blockquotes`]), or the inline parser ([`spans`]) for
//! ordinary text. Generated markup is written with placeholders
//! ([`escape`]) so that one final pass can escape the author's `&`, `<`
//! and `>` without touching the tags. [`laws`] states what holds of every
//! input.
pub mod blockquotes;
pub mod blocks;
pub mod compiler;
pub mod document;
pub mod escape;
pub mod html;
pub mod laws;
pub mod lists;
pub mod parser;
pub mod project;
pub mod spans;
pub mod text;
