//! Turns a plain-text document, cut into sections at its separator lines, into slides
//! for a character-grid terminal: each section becomes a list of display
//! blocks, and each block is given the rectangle it occupies on the screen.
//!
//! The way of a document: `splitter` cuts it into sections, `tree` parses a
//! section and walks its document tree, `convert` turns the walk into display
//! blocks, `slides` keeps the slides and the cursor, and `layout` places the
//! blocks of the slide on display. `laws` and `lists` hold what is proved of
//! the converter beyond the contracts of its functions.

pub mod blocks;
pub mod convert;
pub mod laws;
pub mod layout;
pub mod lists;
pub mod slides;
pub mod splitter;
pub mod text;
pub mod tree;
