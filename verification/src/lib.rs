//! A verified crawler and content-segmentation engine for the Mieux Vivre
//! public health guide: two-level link discovery, a bounded-concurrency
//! crawl coordinator, and a pure segmentation state machine that cuts each
//! page into retrievable chunks tagged with structural metadata.

pub mod crawl;
pub mod discover;
pub mod document;
pub mod dom;
pub mod embedding;
pub mod llm;
pub mod segment;
