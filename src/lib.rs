//! Keyword search over the titles of a tree of plain-text documents.
//!
//! The library holds the verified core: reading the title directive of a
//! document, rewriting inline links to their labels, splitting text into
//! lowercase words, the inverted index from words to document keys, the
//! staleness rules of incremental re-indexing and boolean-AND queries.
//! Walking the directory tree, reading files and keeping the index on disk
//! are left to the caller, which hands the library plain values.

pub mod index;
pub mod links;
pub mod pipeline;
mod text;
pub mod title;
pub mod tokens;

pub use index::{search, InvertedIndex};
pub use links::strip_org_links;
pub use pipeline::{
    build_index, document_tokens, index_document, is_candidate_document, needs_indexing,
    update_index, Document, Layout,
};
pub use title::{extract_org_title, extract_title, title_from_file};
pub use tokens::{split_words, tokenize};
