//! Indexing and search of a local mail spool. Raw messages are parsed into
//! content-addressed records, written through to a full-text index and a
//! key-value store kept in step, searched with widening edit distance, and
//! tagged by replacing their full-text documents.

pub mod sort;
pub mod text;
pub mod mime;
pub mod message;
pub mod html;
pub mod sizing;
pub mod terms;
pub mod index;
pub mod kv;
pub mod store;
pub mod pipeline;
pub mod display;
pub mod cmd;
pub mod rocks;
pub mod terminal;
