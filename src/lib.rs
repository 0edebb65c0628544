//! Export of an outline tree into a tab-separated dictionary.
//!
//! The outline is held as a tree of [`workflowy::Point`] values; the
//! [`serializer`] module locates a subtree by identifier, extracts one row per
//! word node with the configured prefix rules, and renders the rows.

pub mod cli;
pub mod conf;
pub mod pattern;
pub mod serializer;
pub mod text;
pub mod workflowy;
