//! The page model of a site: a parsed document with its front matter, and
//! the HTML of its Open Graph header.
pub mod document;
pub mod header;
pub mod nodes;
