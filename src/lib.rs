//! Core of a note-taking backend: notebooks, notes, tags, the note-tag
//! junction and an append-only edit history, held in an in-memory relational
//! store whose operations are verified against their contracts.

pub mod catalog;
pub mod error;
pub mod keysort;
pub mod laws;
pub mod model;
pub mod notes;
pub mod page;
pub mod search;
pub mod store;
pub mod text;
