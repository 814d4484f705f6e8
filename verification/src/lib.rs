//! A small recipe catalog: named meals with tags, kept in memory as an
//! ordered collection with unique names, and persisted as a JSON file.
//!
//! The catalog itself lives in [`menu`]; its error taxonomy in [`error`];
//! the JSON encoding, which is delegated to serde_json, in [`codec`].

pub mod codec;
pub mod error;
pub mod menu;
