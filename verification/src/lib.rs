//! Turns reading highlights collected from e-reader exports into Markdown
//! documents, one per book.
//!
//! The pipeline is: a source hands over a flat sequence of
//! [`entry::HighlightEntry`] records; the sorter puts them in reading order;
//! the grouper buckets them per book and resolves missing metadata to fixed
//! placeholders; the renderer lays each book out as Markdown. Reading the
//! sources themselves (a reader database, a JSON export) is I/O and lives with
//! the caller; everything in this crate is pure.

pub mod entry;
pub mod group;
pub mod laws;
pub mod order;
pub mod pipeline;
pub mod render;
pub mod rows;
pub mod sorting;
