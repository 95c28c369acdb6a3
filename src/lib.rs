//! Grouped line deltas and UTF-16 highlight spans between two revisions of a text.
//!
//! A line comparison of the two texts yields tagged blocks (`raw`). `grouping` turns them into
//! insert, delete and change operations anchored in the current text, `decorations` into line
//! blocks and, per changed line, the minimal differing range in UTF-16 code units (`span`).
//! `laws` and `rebuild` prove how these results relate.

pub mod decorations;
pub mod grouping;
pub mod laws;
pub mod model;
pub mod raw;
pub mod rebuild;
pub mod span;
pub mod text;
