//! Rewrites the headings of a Markdown document so that each one carries a
//! link to its own anchor.
//!
//! A heading is a line that opens with one to six `#`, then white space, then
//! text. Its anchor is a slug of the text: lower case, with runs of anything
//! but letters and digits turned into single hyphens. Every other line is
//! handed back as it came.
pub mod anchor;
pub mod classes;
pub mod heading;
pub mod laws;
pub mod pieces;
pub mod rewrite;
pub mod text;
pub mod tidy;
