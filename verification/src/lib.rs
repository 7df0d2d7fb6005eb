//! Assembly of search documents from project and version records.
//!
//! The crate selects the (version, project, owner) triples that may be
//! indexed, and merges the loaded records of each triple into one flat,
//! self-contained document for a search engine.

pub mod order;
pub mod text;
pub mod fields;
pub mod loader_fields;
pub mod ids;
pub mod license;
pub mod records;
pub mod loaders;
pub mod categories;
pub mod gallery;
pub mod document;
pub mod assemble;
pub mod select;
pub mod batch;
pub mod laws;
