//! Compiles a set of documents into a search index: normalized words per document, a table of
//! stems, one container of occurrences per stem, and the errors of the documents that failed.

pub mod config;
pub mod containers;
pub mod entry;
pub mod errors;
pub mod index;
pub mod laws;
pub mod nudger;
pub mod reader;
pub mod stem;
pub mod stems;
pub mod text;
