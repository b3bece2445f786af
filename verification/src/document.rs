//! Documents are fetched from a source site and cut into retrievable chunks.

pub mod mv;

use vstd::prelude::*;

verus! {

/// One retrievable unit of text together with its structural metadata.
#[derive(Debug, Clone)]
pub struct Chunk<M> {
    pub text: String,
    pub metadata: M,
}

/// The model of a chunk: its text and its metadata, as values.
pub struct ChunkView<MV> {
    pub text: Seq<char>,
    pub metadata: MV,
}

impl<M: View> View for Chunk<M> {
    type V = ChunkView<M::V>;

    open spec fn view(&self) -> ChunkView<M::V> {
        ChunkView { text: self.text@, metadata: self.metadata@ }
    }
}

/// A fatal failure of a whole crawl: the page list itself could not be built.
#[derive(Debug, Clone, Copy, PartialEq, Eq, Structural)]
pub enum CrawlError {
    Discovery(crate::document::mv::DiscoveryError),
}

/// A source of documents, already segmented into chunks.
pub trait DocumentFetcher<M> {
    fn fetch(&self) -> Result<Vec<Chunk<M>>, CrawlError>;
}

} // verus!
