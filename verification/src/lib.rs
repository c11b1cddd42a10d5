//! Entries of the Oxford Dictionaries API, and how to show them.
//!
//! - [`models`] holds the tree of one lookup (headwords, lexical entries, entries,
//!   nested senses) and the questions asked of it: which branches have nothing to
//!   show, whether one pronunciation can stand for a whole headword, which roots
//!   and origins the tree names.
//! - [`display`] renders a tree, or any part of one, as styled text for a terminal
//!   or as an HTML fragment.
//! - [`pronounce`] lists the audio files that pronounce a tree.
//! - [`text`] and [`style`] are the tools of the renderer: sentences, quotes and
//!   indentation; italics and colour.
//!
//! ```text
//! let mut canvas = String::new();
//! retrieve_entry.display(&mut canvas);
//! println!("{canvas}");
//! ```

pub mod display;
pub mod models;
pub mod pronounce;
pub mod style;
pub mod text;
